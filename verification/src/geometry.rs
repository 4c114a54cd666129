//! The geometry engine: aspect-preserving resize targets, square-crop
//! targets, and the filter-selection policy, in exact integer arithmetic.
//!
//! A quotient rounded to the nearest integer (halves up) is written
//! `(2a + b) / 2b` over the integers.

use vstd::prelude::*;
use vstd::arithmetic::div_mod::lemma_fundamental_div_mod_converse;
use crate::types::ScannerError;

verus! {

/// `a / b` rounded to the nearest integer, halves rounded up.
pub open spec fn round_div(a: nat, b: nat) -> nat
    recommends
        b > 0,
{
    (2 * a + b) / (2 * b)
}

/// The larger of two naturals.
pub open spec fn nat_max(a: nat, b: nat) -> nat {
    if a >= b {
        a
    } else {
        b
    }
}

/// The smaller of two naturals.
pub open spec fn nat_min(a: nat, b: nat) -> nat {
    if a <= b {
        a
    } else {
        b
    }
}

/// The sides differ by strictly less than thirty percent of the longer
/// side.  The exact thirty-percent boundary counts as dissimilar: a
/// dissimilar source scaled to the 1600-pixel rule can land exactly on
/// that boundary, and only this reading makes the resize target a fixed
/// point of itself (see [`lemma_resize_idempotent`]).
pub open spec fn similar_proportions(w: nat, h: nat) -> bool {
    100 * (nat_max(w, h) - nat_min(w, h)) < 30 * nat_max(w, h)
}

/// The resize target for a source of `w` by `h` pixels.
///
/// Sources smaller than 1024 on both sides are left alone.  Otherwise, with
/// similar proportions the shorter side is brought to 1024; with dissimilar
/// proportions, the exact thirty-percent boundary included, the longer side
/// is brought to 1600.  A target that does not shrink both sides falls back
/// to the source dimensions.  The target is a fixed point of itself, so
/// resizing in place is idempotent.
pub open spec fn resize_target(w: nat, h: nat) -> (nat, nat)
    recommends
        w > 0,
        h > 0,
{
    if w < 1024 && h < 1024 {
        (w, h)
    } else {
        let t = if similar_proportions(w, h) {
            if w <= h {
                (1024 as nat, round_div(1024 * h, w))
            } else {
                (round_div(1024 * w, h), 1024 as nat)
            }
        } else {
            if w <= h {
                (round_div(1600 * w, h), 1600 as nat)
            } else {
                (1600 as nat, round_div(1600 * h, w))
            }
        };
        if t.0 >= w || t.1 >= h {
            (w, h)
        } else {
            t
        }
    }
}

/// `(2a + b) / 2b == q` whenever `2bq <= 2a + b < 2b(q + 1)`.
proof fn lemma_round_div_value(a: nat, b: nat, q: nat)
    requires
        b > 0,
        2 * b * q <= 2 * a + b,
        2 * a + b < 2 * b * (q + 1),
    ensures
        round_div(a, b) == q,
{
    let r = 2 * a + b - 2 * b * q;
    assert(2 * b * (q + 1) == 2 * b * q + 2 * b) by (nonlinear_arith);
    assert((2 * a + b) as int == (q as int) * ((2 * b) as int) + r) by (nonlinear_arith)
        requires
            r == 2 * a + b - 2 * b * q,
    ;
    lemma_fundamental_div_mod_converse((2 * a + b) as int, (2 * b) as int, q as int, r);
}

/// The defining range of the rounded quotient `q = round_div(a, b)`:
/// `2bq <= 2a + b < 2bq + 2b`.
proof fn lemma_round_div_range(a: nat, b: nat)
    requires
        b > 0,
    ensures
        2 * b * round_div(a, b) <= 2 * a + b,
        2 * a + b < 2 * b * round_div(a, b) + 2 * b,
{
    let x = (2 * a + b) as int;
    let d = (2 * b) as int;
    vstd::arithmetic::div_mod::lemma_fundamental_div_mod(x, d);
    vstd::arithmetic::div_mod::lemma_mod_division_less_than_divisor(x, d);
    assert(((2 * b) * round_div(a, b)) as int == d * (x / d)) by (nonlinear_arith)
        requires
            round_div(a, b) as int == x / d,
            (2 * b) as int == d,
    ;
}

/// Scaling a side to itself is exact: `round_div(s * k, s) == k`.
proof fn lemma_round_div_same(s: nat, k: nat)
    requires
        s > 0,
    ensures
        round_div(s * k, s) == k,
{
    assert(2 * s * k <= 2 * (s * k) + s && 2 * (s * k) + s < 2 * s * (k + 1)) by (nonlinear_arith)
        requires
            s > 0,
    ;
    lemma_round_div_value(s * k, s, k);
}

/// Computes the resize target of 4.1 for a non-zero source, never upscaling.
///
/// Rejects a zero dimension on either axis as invalid.
pub fn compute_resize_target(width: u32, height: u32) -> (r: Result<(u32, u32), ScannerError>)
    ensures
        r is Err <==> (width == 0 || height == 0),
        r is Err ==> r->Err_0 is Validation,
        r is Ok ==> {
            let t = resize_target(width as nat, height as nat);
            r->Ok_0.0 == t.0 && r->Ok_0.1 == t.1
        },
        r is Ok ==> r->Ok_0.0 <= width && r->Ok_0.1 <= height,
{
    if width == 0 || height == 0 {
        return Err(
            ScannerError::Validation(String::from_str("image dimensions must be non-zero")),
        );
    }
    if width < 1024 && height < 1024 {
        return Ok((width, height));
    }
    let w: u64 = width as u64;
    let h: u64 = height as u64;
    let mx: u64 = if w >= h {
        w
    } else {
        h
    };
    let mn: u64 = if w >= h {
        h
    } else {
        w
    };
    let similar: bool = 100 * (mx - mn) < 30 * mx;
    let (nw, nh): (u64, u64) = if similar {
        if w <= h {
            (1024, (2 * (1024 * h) + w) / (2 * w))
        } else {
            ((2 * (1024 * w) + h) / (2 * h), 1024)
        }
    } else {
        if w <= h {
            ((2 * (1600 * w) + h) / (2 * h), 1600)
        } else {
            (1600, (2 * (1600 * h) + w) / (2 * w))
        }
    };
    if nw >= w || nh >= h {
        Ok((width, height))
    } else {
        Ok((nw as u32, nh as u32))
    }
}

/// No upscaling: the resize target never exceeds the source on either axis.
pub proof fn lemma_resize_no_upscale(w: nat, h: nat)
    requires
        w > 0,
        h > 0,
    ensures
        resize_target(w, h).0 <= w,
        resize_target(w, h).1 <= h,
{
}

/// With similar proportions and both sides at least 1024, the target is
/// exactly: shorter side 1024, longer side the rounded aspect-preserving
/// counterpart, which stays within half a pixel of the true ratio.
pub proof fn lemma_resize_similar(w: nat, h: nat)
    requires
        1024 <= w,
        1024 <= h,
        similar_proportions(w, h),
    ensures
        w <= h ==> resize_target(w, h) == (1024 as nat, round_div(1024 * h, w)),
        h < w ==> resize_target(w, h) == (round_div(1024 * w, h), 1024 as nat),
        nat_min(resize_target(w, h).0, resize_target(w, h).1) == 1024,
        w <= h ==> {
            let l = resize_target(w, h).1;
            2 * w * l <= 2 * (1024 * h) + w && 2 * (1024 * h) <= 2 * w * l + w
        },
        h < w ==> {
            let l = resize_target(w, h).0;
            2 * h * l <= 2 * (1024 * w) + h && 2 * (1024 * w) <= 2 * h * l + h
        },
{
    if w <= h {
        let l = round_div(1024 * h, w);
        lemma_round_div_range(1024 * h, w);
        if w == 1024 {
            assert(l == h) by (nonlinear_arith)
                requires
                    w == 1024,
                    2 * w * l <= 2 * (1024 * h) + w,
                    2 * (1024 * h) + w < 2 * w * l + 2 * w,
            ;
        } else {
            assert(l < h) by (nonlinear_arith)
                requires
                    1025 <= w <= h,
                    2 * w * l <= 2 * (1024 * h) + w,
            ;
        }
        assert(l >= 1024) by (nonlinear_arith)
            requires
                1 <= w <= h,
                2 * (1024 * h) + w < 2 * w * l + 2 * w,
        ;
        assert(2 * (1024 * h) <= 2 * w * l + w);
    } else {
        let l = round_div(1024 * w, h);
        lemma_round_div_range(1024 * w, h);
        if h == 1024 {
            assert(l == w) by (nonlinear_arith)
                requires
                    h == 1024,
                    2 * h * l <= 2 * (1024 * w) + h,
                    2 * (1024 * w) + h < 2 * h * l + 2 * h,
            ;
        } else {
            assert(l < w) by (nonlinear_arith)
                requires
                    1025 <= h < w,
                    2 * h * l <= 2 * (1024 * w) + h,
            ;
        }
        assert(l >= 1024) by (nonlinear_arith)
            requires
                1 <= h < w,
                2 * (1024 * w) + h < 2 * h * l + 2 * h,
        ;
        assert(2 * (1024 * w) <= 2 * h * l + h);
    }
}

/// With dissimilar proportions (the thirty-percent boundary included),
/// both sides at least 1024 and the longer side beyond 1600, the longer
/// output side is exactly 1600.
pub proof fn lemma_resize_dissimilar(w: nat, h: nat)
    requires
        1024 <= w,
        1024 <= h,
        !similar_proportions(w, h),
        nat_max(w, h) > 1600,
    ensures
        w <= h ==> resize_target(w, h) == (round_div(1600 * w, h), 1600 as nat),
        h < w ==> resize_target(w, h) == (1600 as nat, round_div(1600 * h, w)),
        nat_max(resize_target(w, h).0, resize_target(w, h).1) == 1600,
{
    if w <= h {
        let s = round_div(1600 * w, h);
        lemma_round_div_range(1600 * w, h);
        assert(s < w) by (nonlinear_arith)
            requires
                1024 <= w <= h,
                h >= 1601,
                2 * h * s <= 2 * (1600 * w) + h,
        ;
        assert(s <= 1600) by (nonlinear_arith)
            requires
                1 <= w <= h,
                2 * h * s <= 2 * (1600 * w) + h,
        ;
        assert(resize_target(w, h) == (s, 1600 as nat));
    } else {
        let s = round_div(1600 * h, w);
        lemma_round_div_range(1600 * h, w);
        assert(s < h) by (nonlinear_arith)
            requires
                1024 <= h < w,
                w >= 1601,
                2 * w * s <= 2 * (1600 * h) + w,
        ;
        assert(s <= 1600) by (nonlinear_arith)
            requires
                1 <= h < w,
                2 * w * s <= 2 * (1600 * h) + w,
        ;
        assert(resize_target(w, h) == (1600 as nat, s));
    }
}

/// The square-crop target: the scaled dimensions that bring the shorter side
/// to `size`, and the top-left anchored crop box.
pub struct CropTarget {
    pub scaled_w: u32,
    pub scaled_h: u32,
    pub crop_x: u32,
    pub crop_y: u32,
    pub crop_w: u32,
    pub crop_h: u32,
    pub needs_exact_resize: bool,
}

/// The scaled width and height before cropping: each side times
/// `size / min(w, h)`, rounded to nearest.
pub open spec fn crop_scaled_dims(w: nat, h: nat, size: nat) -> (nat, nat)
    recommends
        w > 0,
        h > 0,
{
    (round_div(w * size, nat_min(w, h)), round_div(h * size, nat_min(w, h)))
}

/// Computes the square-crop target of 4.1: scale so the shorter side equals
/// `size`, then crop a `size` by `size` box anchored at the top-left corner;
/// a final exact resize is requested whenever the cropped box is not already
/// that square.
///
/// Rejects zero dimensions and a zero size as invalid, and scaled dimensions
/// beyond the pixel-coordinate range as out of range.
pub fn compute_square_crop_target(width: u32, height: u32, size: u32) -> (r: Result<
    CropTarget,
    ScannerError,
>)
    ensures
        ({
            let sd = crop_scaled_dims(width as nat, height as nat, size as nat);
            &&& r is Err <==> (width == 0 || height == 0 || size == 0 || sd.0 > u32::MAX || sd.1
                > u32::MAX)
            &&& r is Err ==> r->Err_0 is Validation
            &&& r is Ok ==> {
                let c = r->Ok_0;
                &&& c.scaled_w == sd.0
                &&& c.scaled_h == sd.1
                &&& c.crop_x == 0
                &&& c.crop_y == 0
                &&& c.crop_w == nat_min(sd.0, size as nat)
                &&& c.crop_h == nat_min(sd.1, size as nat)
                &&& c.needs_exact_resize == (c.crop_w != size || c.crop_h != size)
            }
        }),
{
    if width == 0 || height == 0 || size == 0 {
        return Err(
            ScannerError::Validation(
                String::from_str("crop target needs non-zero dimensions and size"),
            ),
        );
    }
    let w: u128 = width as u128;
    let h: u128 = height as u128;
    let s: u128 = size as u128;
    let mn: u128 = if w <= h {
        w
    } else {
        h
    };
    proof {
        assert(w * s < 0x1_0000_0000_0000_0000 && h * s < 0x1_0000_0000_0000_0000)
            by (nonlinear_arith)
            requires
                w < 0x1_0000_0000,
                h < 0x1_0000_0000,
                s < 0x1_0000_0000,
        ;
    }
    let sw: u128 = (2 * (w * s) + mn) / (2 * mn);
    let sh: u128 = (2 * (h * s) + mn) / (2 * mn);
    if sw > u32::MAX as u128 || sh > u32::MAX as u128 {
        return Err(ScannerError::Validation(String::from_str("scaled dimensions out of range")));
    }
    let scaled_w: u32 = sw as u32;
    let scaled_h: u32 = sh as u32;
    let crop_w: u32 = if scaled_w <= size {
        scaled_w
    } else {
        size
    };
    let crop_h: u32 = if scaled_h <= size {
        scaled_h
    } else {
        size
    };
    Ok(
        CropTarget {
            scaled_w,
            scaled_h,
            crop_x: 0,
            crop_y: 0,
            crop_w,
            crop_h,
            needs_exact_resize: crop_w != size || crop_h != size,
        },
    )
}

/// Scaling the shorter side by `size / min(w, h)` lands exactly on `size`:
/// the crop box of a valid target is always the full `size` by `size` square.
pub proof fn lemma_crop_shorter_side_exact(w: nat, h: nat, size: nat)
    requires
        w > 0,
        h > 0,
        size > 0,
    ensures
        w <= h ==> crop_scaled_dims(w, h, size).0 == size,
        h <= w ==> crop_scaled_dims(w, h, size).1 == size,
{
    if w <= h {
        lemma_round_div_same(w, size);
        assert(crop_scaled_dims(w, h, size).0 == round_div(w * size, w));
    }
    if h <= w {
        lemma_round_div_same(h, size);
        assert(crop_scaled_dims(w, h, size).1 == round_div(h * size, h));
    }
}

/// Resizing is idempotent: the resize target is a fixed point of itself,
/// so resizing a file in place and resizing it again is a no-op.  This
/// rests on the thirty-percent boundary counting as dissimilar: a
/// dissimilar source can scale to exactly (1120, 1600), which sits on the
/// boundary and must map to itself.
#[verifier::rlimit(100)]
#[verifier::spinoff_prover]
pub proof fn lemma_resize_idempotent(w: nat, h: nat)
    requires
        w > 0,
        h > 0,
    ensures
        ({
            let r = resize_target(w, h);
            resize_target(r.0, r.1) == r
        }),
{
    let r = resize_target(w, h);
    if w < 1024 && h < 1024 {
        // The target is the source; recomputing takes the same branch.
    } else if similar_proportions(w, h) {
        if w <= h {
            let l = round_div(1024 * h, w);
            if 1024 >= w || l >= h {
                // r == (w, h): recomputing is the very same application.
            } else {
                // r == (1024, l) with 1024 < w and l < h.
                lemma_round_div_range(1024 * h, w);
                assert(l >= 1024) by (nonlinear_arith)
                    requires
                        1 <= w <= h,
                        2 * (1024 * h) + w < 2 * w * l + 2 * w,
                ;
                assert(l <= 1463) by (nonlinear_arith)
                    requires
                        1 <= w,
                        70 * h <= 100 * w - 1,
                        2 * w * l <= 2 * (1024 * h) + w,
                ;
                if l <= 1462 {
                    assert(similar_proportions(1024, l));
                    lemma_round_div_same(1024, l);
                    assert(resize_target(1024 as nat, l) == (1024 as nat, l));
                } else {
                    assert(!similar_proportions(1024, l));
                    assert(resize_target(1024 as nat, l) == (1024 as nat, l));
                }
            }
        } else {
            let l = round_div(1024 * w, h);
            if l >= w || 1024 >= h {
            } else {
                lemma_round_div_range(1024 * w, h);
                assert(l >= 1024) by (nonlinear_arith)
                    requires
                        1 <= h < w,
                        2 * (1024 * w) + h < 2 * h * l + 2 * h,
                ;
                assert(l <= 1463) by (nonlinear_arith)
                    requires
                        1 <= h,
                        70 * w <= 100 * h - 1,
                        2 * h * l <= 2 * (1024 * w) + h,
                ;
                if l == 1024 {
                    assert(similar_proportions(l, 1024 as nat));
                    lemma_round_div_same(1024, l);
                    assert(resize_target(l, 1024 as nat) == (l, 1024 as nat));
                } else if l <= 1462 {
                    assert(similar_proportions(l, 1024 as nat));
                    lemma_round_div_same(1024, l);
                    assert(resize_target(l, 1024 as nat) == (l, 1024 as nat));
                } else {
                    assert(!similar_proportions(l, 1024 as nat));
                    assert(resize_target(l, 1024 as nat) == (l, 1024 as nat));
                }
            }
        }
    } else {
        if w <= h {
            let s2 = round_div(1600 * w, h);
            if s2 >= w || 1600 >= h {
            } else {
                // r == (s2, 1600) with s2 < w and 1600 < h.
                lemma_round_div_range(1600 * w, h);
                assert(s2 <= 1120) by (nonlinear_arith)
                    requires
                        1 <= h,
                        100 * w <= 70 * h,
                        2 * h * s2 <= 2 * (1600 * w) + h,
                ;
                assert(!similar_proportions(s2, 1600 as nat));
                lemma_round_div_same(1600, s2);
                assert(resize_target(s2, 1600 as nat) == (s2, 1600 as nat));
            }
        } else {
            let s2 = round_div(1600 * h, w);
            if 1600 >= w || s2 >= h {
            } else {
                lemma_round_div_range(1600 * h, w);
                assert(s2 <= 1120) by (nonlinear_arith)
                    requires
                        1 <= w,
                        100 * h <= 70 * w,
                        2 * w * s2 <= 2 * (1600 * h) + w,
                ;
                assert(!similar_proportions(1600 as nat, s2));
                lemma_round_div_same(1600, s2);
                assert(resize_target(1600 as nat, s2) == (1600 as nat, s2));
            }
        }
    }
}

/// With positive dimensions and size, both scaled dimensions are positive.
pub proof fn lemma_scaled_dims_pos(w: nat, h: nat, size: nat)
    requires
        w >= 1,
        h >= 1,
        size >= 1,
    ensures
        crop_scaled_dims(w, h, size).0 >= 1,
        crop_scaled_dims(w, h, size).1 >= 1,
{
    let mn = nat_min(w, h);
    let qw = round_div(w * size, mn);
    let qh = round_div(h * size, mn);
    lemma_round_div_range(w * size, mn);
    lemma_round_div_range(h * size, mn);
    assert(w * size >= mn && h * size >= mn) by (nonlinear_arith)
        requires
            1 <= size,
            mn <= w,
            mn <= h,
    ;
    assert(qw >= 1) by (nonlinear_arith)
        requires
            1 <= mn,
            w * size >= mn,
            2 * (w * size) + mn < 2 * mn * qw + 2 * mn,
    ;
    assert(qh >= 1) by (nonlinear_arith)
        requires
            1 <= mn,
            h * size >= mn,
            2 * (h * size) + mn < 2 * mn * qh + 2 * mn,
    ;
}

/// The filter policy for thumbnails: a fast linear filter for targets of at
/// most 128 pixels, a high-quality filter otherwise.
pub open spec fn thumbnail_filter_fast(size: nat) -> bool {
    size <= 128
}

/// The filter policy for general resizing: a fast linear filter when either
/// target side falls below 512 pixels, a high-quality filter otherwise.
pub open spec fn resize_filter_fast(nw: nat, nh: nat) -> bool {
    nw < 512 || nh < 512
}

/// Picks the thumbnail filter, as [`thumbnail_filter_fast`].
pub fn pick_thumbnail_filter(size: u32) -> (fast: bool)
    ensures
        fast == thumbnail_filter_fast(size as nat),
{
    size <= 128
}

/// Picks the general resize filter, as [`resize_filter_fast`].
pub fn pick_resize_filter(nw: u32, nh: u32) -> (fast: bool)
    ensures
        fast == resize_filter_fast(nw as nat, nh as nat),
{
    nw < 512 || nh < 512
}

} // verus!
