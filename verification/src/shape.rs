use vstd::prelude::*;
use vstd::arithmetic::div_mod::{
    lemma_div_is_ordered, lemma_div_pos_is_pos, lemma_fundamental_div_mod,
    lemma_fundamental_div_mod_converse,
};
use vstd::arithmetic::mul::lemma_mul_inequality;

use crate::color::ColorType;
use crate::error::BinImageError;

verus! {

/// Ceiling division: the least integer at or above `a / b`, for `b >= 1` and
/// `a >= 0`.
pub open spec fn ceil_div(a: int, b: int) -> int {
    (a + b - 1) / b
}

/// The least number of pixels that can hold `len` bytes at `bpp` bits per
/// pixel: any partial pixel is rounded up.
pub open spec fn num_pixels_spec(len: int, bpp: int) -> int {
    ceil_div(8 * len, bpp)
}

/// `r` is the integer square root of `n`, rounded down.
pub open spec fn is_floor_sqrt(n: int, r: int) -> bool {
    0 <= r && r * r <= n && n < (r + 1) * (r + 1)
}

/// The integer square root of `n`, rounded down, as a function: the largest
/// `r` with `r * r <= n` (0 for `n <= 0`).
pub open spec fn floor_sqrt(n: int) -> int
    decreases n,
{
    if n <= 0 {
        0
    } else if (floor_sqrt(n - 1) + 1) * (floor_sqrt(n - 1) + 1) <= n {
        floor_sqrt(n - 1) + 1
    } else {
        floor_sqrt(n - 1)
    }
}

/// The dimensions the solver owes for `np` pixels under at most one axis
/// constraint: both supplied is a conflict; a supplied axis larger than `np`
/// is too large; one supplied axis fixes that axis and the other rounds up;
/// no constraint approximates a square, with each axis clamped up to 1 so a
/// zero-pixel input still yields a 1-by-1 image.
pub open spec fn solve_dims(np: int, w_req: Option<u32>, h_req: Option<u32>) -> Result<
    (int, int),
    BinImageError,
> {
    match (w_req, h_req) {
        (Some(_), Some(_)) => Err(BinImageError::ConflictingConstraints),
        (Some(w), None) => if w > np {
            Err(BinImageError::DimensionTooLarge)
        } else {
            Ok((w as int, ceil_div(np, w as int)))
        },
        (None, Some(h)) => if h > np {
            Err(BinImageError::DimensionTooLarge)
        } else {
            Ok((ceil_div(np, h as int), h as int))
        },
        (None, None) => {
            let w = if floor_sqrt(np) >= 1 { floor_sqrt(np) } else { 1int };
            let h = if ceil_div(np, w) >= 1 { ceil_div(np, w) } else { 1int };
            Ok((w, h))
        },
    }
}

/// The bounds ceiling division obeys: the result times the divisor reaches
/// the dividend but overshoots it by less than the divisor.
pub proof fn lemma_ceil_div_bounds(a: int, b: int)
    requires
        a >= 0,
        b >= 1,
    ensures
        0 <= ceil_div(a, b) <= a,
        ceil_div(a, b) * b >= a,
        ceil_div(a, b) * b < a + b,
        a >= 1 ==> ceil_div(a, b) >= 1,
{
    let q = ceil_div(a, b);
    lemma_fundamental_div_mod(a + b - 1, b);
    let rr = (a + b - 1) % b;
    assert(a + b - 1 == b * q + rr);
    lemma_div_pos_is_pos(a + b - 1, b);
    assert(q * b == b * q) by (nonlinear_arith);
    assert(q * b >= a);
    assert(q * b < a + b);
    if q > a {
        assert(q * b >= q) by (nonlinear_arith)
            requires
                q >= 0,
                b >= 1,
        ;
        assert(q >= a + 1);
        assert(q * b >= (a + 1) * b) by (nonlinear_arith)
            requires
                q >= a + 1,
                b >= 1,
        ;
        assert((a + 1) * b >= a + b) by (nonlinear_arith)
            requires
                a >= 0,
                b >= 1,
        ;
        assert(false);
    }
    if a >= 1 && q < 1 {
        assert(q * b <= 0) by (nonlinear_arith)
            requires
                q <= 0,
                b >= 1,
        ;
        assert(false);
    }
}

/// Ceiling division is monotone in the dividend.
pub proof fn lemma_ceil_div_mono(a1: int, a2: int, b: int)
    requires
        a1 <= a2,
        b >= 1,
    ensures
        ceil_div(a1, b) <= ceil_div(a2, b),
{
    lemma_div_is_ordered(a1 + b - 1, a2 + b - 1, b);
}

/// Ceiling division of an exact multiple gives the factor back.
pub proof fn lemma_ceil_div_exact(k: int, b: int)
    requires
        k >= 0,
        b >= 1,
    ensures
        ceil_div(b * k, b) == k,
{
    assert(b * k == k * b) by (nonlinear_arith);
    lemma_fundamental_div_mod_converse(b * k + b - 1, b, k, b - 1);
}

/// `floor_sqrt` really is the integer square root rounded down.
pub proof fn lemma_floor_sqrt(n: int)
    requires
        n >= 0,
    ensures
        is_floor_sqrt(n, floor_sqrt(n)),
    decreases n,
{
    if n == 0 {
        assert(floor_sqrt(0) == 0);
    } else {
        lemma_floor_sqrt(n - 1);
        let p = floor_sqrt(n - 1);
        if (p + 1) * (p + 1) <= n {
            assert(n - 1 < (p + 1) * (p + 1));
            assert(n < (p + 2) * (p + 2)) by (nonlinear_arith)
                requires
                    p >= 0,
                    n <= (p + 1) * (p + 1),
            ;
        }
    }
}

/// Only one integer can be the rounded-down square root of `n`.
pub proof fn lemma_floor_sqrt_unique(n: int, r1: int, r2: int) by (nonlinear_arith)
    requires
        is_floor_sqrt(n, r1),
        is_floor_sqrt(n, r2),
    ensures
        r1 == r2,
{
}

/// Round up an integer division.
///
/// `numerator` - The upper component of a division
/// `denominator` - The lower component of a division
pub fn int_ceil(numerator: u32, denominator: u32) -> (r: u32)
    requires
        denominator >= 1,
        numerator + denominator <= u32::MAX,
    ensures
        r == ceil_div(numerator as int, denominator as int),
{
    (numerator + denominator - 1) / denominator
}

/// Round up an integer division, with the headroom of 64 bits.
fn ceil_div_u64(a: u64, b: u64) -> (r: u64)
    requires
        b >= 1,
        a + b <= u64::MAX,
    ensures
        r == ceil_div(a as int, b as int),
{
    (a + b - 1) / b
}

/// The integer square root of `n`, rounded down, by binary search.
fn isqrt(n: u32) -> (r: u32)
    ensures
        r == floor_sqrt(n as int),
{
    let mut lo: u32 = 0;
    let mut hi: u32 = 65536;
    while lo + 1 < hi
        invariant
            lo < hi <= 65536,
            (lo as int) * (lo as int) <= n as int,
            (n as int) < (hi as int) * (hi as int),
        decreases hi - lo,
    {
        let mid: u32 = lo + (hi - lo) / 2;
        proof {
            assert((mid as int) * (mid as int) < 4294967296int) by (nonlinear_arith)
                requires
                    mid <= 65535,
            ;
        }
        if (mid as u64) * (mid as u64) <= n as u64 {
            lo = mid;
        } else {
            hi = mid;
        }
    }
    proof {
        assert(hi == lo + 1);
        assert(is_floor_sqrt(n as int, lo as int));
        lemma_floor_sqrt(n as int);
        lemma_floor_sqrt_unique(n as int, lo as int, floor_sqrt(n as int));
    }
    lo
}

/// The result of the executable solver agrees with `solve_dims`, value for
/// value on success and kind for kind on failure.
pub open spec fn dims_correspond(
    r: Result<(u32, u32), BinImageError>,
    s: Result<(int, int), BinImageError>,
) -> bool {
    match (r, s) {
        (Ok((w, h)), Ok((sw, sh))) => w == sw && h == sh,
        (Err(e), Err(se)) => e == se,
        _ => false,
    }
}

/// Whenever the solver succeeds, both axes are at least 1, the grid holds at
/// least `np` pixels, and it overshoots `np` by less than one full axis.
pub proof fn lemma_solve_dims_bounds(np: int, w_req: Option<u32>, h_req: Option<u32>)
    requires
        np >= 0,
        w_req matches Some(w) ==> w >= 1,
        h_req matches Some(h) ==> h >= 1,
    ensures
        match solve_dims(np, w_req, h_req) {
            Ok((w, h)) => 1 <= w && 1 <= h && np <= w * h && (np >= 1 ==> w <= np && h <= np
                && w * h <= 2 * np - 1) && (np == 0 ==> w == 1 && h == 1),
            Err(_) => true,
        },
{
    match (w_req, h_req) {
        (Some(w), Some(h)) => {
        },
        (Some(w), None) => {
            if w <= np {
                lemma_ceil_div_bounds(np, w as int);
                let h = ceil_div(np, w as int);
                assert(h * (w as int) == (w as int) * h) by (nonlinear_arith);
            }
        },
        (None, Some(h)) => {
            if h <= np {
                lemma_ceil_div_bounds(np, h as int);
                let w = ceil_div(np, h as int);
                assert(w * (h as int) == (h as int) * w) by (nonlinear_arith);
            }
        },
        (None, None) => {
            lemma_floor_sqrt(np);
            let s = floor_sqrt(np);
            if np == 0 {
                assert(s == 0);
                assert(ceil_div(0, 1) == 0);
            } else {
                assert(s >= 1) by (nonlinear_arith)
                    requires
                        is_floor_sqrt(np, s),
                        np >= 1,
                ;
                assert(s <= np) by (nonlinear_arith)
                    requires
                        is_floor_sqrt(np, s),
                        np >= 1,
                ;
                lemma_ceil_div_bounds(np, s);
                let h = ceil_div(np, s);
                assert(h * s == s * h) by (nonlinear_arith);
            }
        },
    }
}

/// Determine the dimensions to give to the generated image.
///
/// `buffer_size` - The input size in bytes
/// `arg_shape` - The requested width and height, at most one of which may be
/// supplied
/// `colortype` - The type of pixel to use
pub fn image_shape(
    buffer_size: usize,
    arg_shape: (Option<u32>, Option<u32>),
    colortype: ColorType,
) -> (r: Result<(u32, u32), BinImageError>)
    requires
        colortype.wf(),
        num_pixels_spec(buffer_size as int, colortype.bits_per_pixel_spec()) <= u32::MAX,
        !(arg_shape.0 == Some(0u32) && arg_shape.1 is None),
        !(arg_shape.1 == Some(0u32) && arg_shape.0 is None),
    ensures
        dims_correspond(
            r,
            solve_dims(
                num_pixels_spec(buffer_size as int, colortype.bits_per_pixel_spec()),
                arg_shape.0,
                arg_shape.1,
            ),
        ),
{
    let ghost np_s: int = num_pixels_spec(buffer_size as int, colortype.bits_per_pixel_spec());
    let bpp: u32 = colortype.bits_per_pixel();
    proof {
        lemma_ceil_div_bounds(8 * (buffer_size as int), bpp as int);
        assert(np_s * (bpp as int) <= (u32::MAX as int) * 24) by (nonlinear_arith)
            requires
                0 <= np_s <= u32::MAX,
                0 < bpp <= 24,
        ;
    }
    let np64: u64 = ceil_div_u64((buffer_size as u64) * 8, bpp as u64);
    let np: u32 = np64 as u32;
    match arg_shape {
        (Some(_), Some(_)) => Err(BinImageError::ConflictingConstraints),
        (Some(w), None) => {
            if w > np {
                Err(BinImageError::DimensionTooLarge)
            } else {
                proof {
                    lemma_ceil_div_bounds(np as int, w as int);
                }
                let h64: u64 = ceil_div_u64(np as u64, w as u64);
                Ok((w, h64 as u32))
            }
        },
        (None, Some(h)) => {
            if h > np {
                Err(BinImageError::DimensionTooLarge)
            } else {
                proof {
                    lemma_ceil_div_bounds(np as int, h as int);
                }
                let w64: u64 = ceil_div_u64(np as u64, h as u64);
                Ok((w64 as u32, h))
            }
        },
        (None, None) => {
            let s: u32 = isqrt(np);
            let w: u32 = if s == 0 {
                1
            } else {
                s
            };
            proof {
                lemma_ceil_div_bounds(np as int, w as int);
            }
            let h64: u64 = ceil_div_u64(np as u64, w as u64);
            let h: u32 = if h64 == 0 {
                1
            } else {
                h64 as u32
            };
            Ok((w, h))
        },
    }
}

/// The number of additional bytes necessary to match the buffer size and
/// image size (in pixels). Dimensions that cannot hold the buffer are
/// reported as a violation of the solver's sufficiency invariant, never
/// silently truncated.
///
/// `buffer_size` - The input size in bytes
/// `dims` - The shape of the output image
/// `colortype` - The type of pixel to use
pub fn bytes_to_add(buffer_size: usize, dims: (u32, u32), colortype: ColorType) -> (r: Result<
    u32,
    BinImageError,
>)
    requires
        colortype.wf(),
        (dims.0 as int) * (dims.1 as int) * colortype.bits_per_pixel_spec() <= u32::MAX,
    ensures
        ({
            let bytes_required = ceil_div(
                (dims.0 as int) * (dims.1 as int) * colortype.bits_per_pixel_spec(),
                8,
            );
            if buffer_size as int <= bytes_required {
                r matches Ok(p) && buffer_size + p == bytes_required
            } else {
                r == Err::<u32, BinImageError>(BinImageError::InvariantViolation)
            }
        }),
{
    let bpp: u32 = colortype.bits_per_pixel();
    proof {
        assert((dims.0 as int) * (dims.1 as int) <= (dims.0 as int) * (dims.1 as int) * (
        bpp as int)) by (nonlinear_arith)
            requires
                bpp >= 1,
                dims.0 >= 0,
                dims.1 >= 0,
        ;
        assert((dims.0 as int) * (dims.1 as int) * (bpp as int) >= 0) by (nonlinear_arith);
    }
    let bits_required: u32 = dims.0 * dims.1 * bpp;
    proof {
        lemma_ceil_div_bounds(bits_required as int, 8);
    }
    let bytes64: u64 = ceil_div_u64(bits_required as u64, 8);
    if (buffer_size as u64) > bytes64 {
        Err(BinImageError::InvariantViolation)
    } else {
        Ok((bytes64 as u32) - (buffer_size as u32))
    }
}

/// Law: for every buffer length and every well-formed color type, the solver
/// under no constraint always succeeds, with both axes at least 1 and enough
/// pixel storage for every input bit.
pub proof fn lemma_unconstrained_sufficiency(len: int, c: ColorType)
    requires
        len >= 0,
        c.wf(),
    ensures
        ({
            let np = num_pixels_spec(len, c.bits_per_pixel_spec());
            match solve_dims(np, None, None) {
                Ok((w, h)) => 1 <= w && 1 <= h && w * h * c.bits_per_pixel_spec() >= 8 * len,
                Err(_) => false,
            }
        }),
{
    let bpp = c.bits_per_pixel_spec();
    let np = num_pixels_spec(len, bpp);
    lemma_ceil_div_bounds(8 * len, bpp);
    lemma_solve_dims_bounds(np, None, None);
    match solve_dims(np, None, None) {
        Ok((w, h)) => {
            lemma_mul_inequality(np, w * h, bpp);
        },
        Err(_) => {
        },
    }
}

/// Law: whenever the solver succeeds, the byte storage the resolved grid
/// requires covers the whole buffer, so the padding that makes up the
/// difference is never negative.
pub proof fn lemma_padding_accounting(len: int, w_req: Option<u32>, h_req: Option<u32>, c: ColorType)
    requires
        len >= 0,
        c.wf(),
        w_req matches Some(w) ==> w >= 1,
        h_req matches Some(h) ==> h >= 1,
    ensures
        match solve_dims(num_pixels_spec(len, c.bits_per_pixel_spec()), w_req, h_req) {
            Ok((w, h)) => ceil_div(w * h * c.bits_per_pixel_spec(), 8) >= len,
            Err(_) => true,
        },
{
    let bpp = c.bits_per_pixel_spec();
    let np = num_pixels_spec(len, bpp);
    lemma_ceil_div_bounds(8 * len, bpp);
    lemma_solve_dims_bounds(np, w_req, h_req);
    match solve_dims(np, w_req, h_req) {
        Ok((w, h)) => {
            lemma_mul_inequality(np, w * h, bpp);
            assert(w * h * bpp >= 8 * len);
            lemma_ceil_div_mono(8 * len, w * h * bpp, 8);
            lemma_ceil_div_exact(len, 8);
        },
        Err(_) => {
        },
    }
}

/// Law: supplying both a width and a height fails with
/// `ConflictingConstraints`, whatever their values and whatever the pixel
/// count.
pub proof fn lemma_conflicting_constraints(np: int, w: u32, h: u32)
    ensures
        solve_dims(np, Some(w), Some(h)) == Err::<(int, int), BinImageError>(
            BinImageError::ConflictingConstraints,
        ),
{
}

/// Law: a single supplied axis strictly greater than the pixel count fails
/// with `DimensionTooLarge`.
pub proof fn lemma_dimension_too_large(np: int, axis: u32)
    requires
        axis > np,
    ensures
        solve_dims(np, Some(axis), None) == Err::<(int, int), BinImageError>(
            BinImageError::DimensionTooLarge,
        ),
        solve_dims(np, None, Some(axis)) == Err::<(int, int), BinImageError>(
            BinImageError::DimensionTooLarge,
        ),
{
}

} // verus!
