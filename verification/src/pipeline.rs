use vstd::prelude::*;
use vstd::arithmetic::mul::lemma_mul_inequality;

use crate::color::ColorType;
use crate::error::BinImageError;
use crate::shape::{
    bytes_to_add, ceil_div, image_shape, lemma_ceil_div_bounds, lemma_padding_accounting,
    lemma_solve_dims_bounds, num_pixels_spec, solve_dims,
};

verus! {

/// What the whole pipeline owes for a buffer of `len` bytes, a bit-depth
/// code and at most one axis constraint: either the first failing stage's
/// error, or the resolved dimensions together with the number of filler
/// bytes. The outcome is a function of these inputs alone.
pub open spec fn pipeline_spec(
    len: int,
    bitdepth: u8,
    w_req: Option<u32>,
    h_req: Option<u32>,
) -> Result<((int, int), int), BinImageError> {
    match ColorType::from_bitdepth_spec(bitdepth) {
        Err(e) => Err(e),
        Ok(c) => match solve_dims(num_pixels_spec(len, c.bits_per_pixel_spec()), w_req, h_req) {
            Err(e) => Err(e),
            Ok((w, h)) => Ok(((w, h), ceil_div(w * h * c.bits_per_pixel_spec(), 8) - len)),
        },
    }
}

/// Resolve the color model for `bitdepth`, derive dimensions for the buffer
/// under at most one axis constraint, and append exactly the zero filler
/// that makes the buffer's length match the dimensions' byte storage. On any
/// failure the buffer is left untouched and the first failing stage's error
/// is returned.
pub fn prepare_image(
    buffer: &mut Vec<u8>,
    bitdepth: u8,
    width: Option<u32>,
    height: Option<u32>,
) -> (r: Result<(u32, u32, ColorType), BinImageError>)
    requires
        16 * old(buffer)@.len() + 48 <= u32::MAX,
        !(width == Some(0u32) && height is None),
        !(height == Some(0u32) && width is None),
    ensures
        ({
            let len0 = old(buffer)@.len() as int;
            match pipeline_spec(len0, bitdepth, width, height) {
                Err(e) => r == Err::<(u32, u32, ColorType), BinImageError>(e) && final(buffer)@
                    == old(buffer)@,
                Ok(dp) => r matches Ok(t) && t.0 == dp.0.0 && t.1 == dp.0.1 && Ok::<
                    ColorType,
                    BinImageError,
                >(t.2) == ColorType::from_bitdepth_spec(bitdepth) && dp.1 >= 0 && final(buffer)@
                    == old(buffer)@ + Seq::new(dp.1 as nat, |j: int| 0u8),
            }
        }),
{
    let ghost len0: int = buffer@.len() as int;
    let colortype: ColorType = match ColorType::from_bitdepth(bitdepth) {
        Ok(c) => c,
        Err(e) => {
            return Err(e);
        },
    };
    let ghost bpp: int = colortype.bits_per_pixel_spec();
    let ghost np: int = num_pixels_spec(len0, bpp);
    proof {
        lemma_ceil_div_bounds(8 * len0, bpp);
    }
    let dims: (u32, u32) = match image_shape(buffer.len(), (width, height), colortype) {
        Ok(d) => d,
        Err(e) => {
            return Err(e);
        },
    };
    proof {
        assert(width matches Some(w) ==> w >= 1);
        assert(height matches Some(h) ==> h >= 1);
        lemma_solve_dims_bounds(np, width, height);
        let w = dims.0 as int;
        let h = dims.1 as int;
        assert(1 <= bpp <= 24);
        if np >= 1 {
            assert(w * h <= 2 * np - 1);
            lemma_mul_inequality(w * h, 2 * np - 1, bpp);
            assert((2 * np - 1) * bpp == 2 * (np * bpp) - bpp) by (nonlinear_arith);
            assert(np * bpp < 8 * len0 + bpp);
            assert(w * h * bpp <= 16 * len0 + 24);
        } else {
            assert(w == 1 && h == 1);
            assert(w * h * bpp == bpp) by (nonlinear_arith)
                requires
                    w == 1 && h == 1,
            ;
        }
        assert(w * h * bpp <= u32::MAX);
        lemma_padding_accounting(len0, width, height, colortype);
    }
    let pad: u32 = match bytes_to_add(buffer.len(), dims, colortype) {
        Ok(p) => p,
        Err(e) => {
            proof {
                assert(false);
            }
            return Err(e);
        },
    };
    let mut i: u32 = 0;
    while i < pad
        invariant
            i <= pad,
            buffer@ == old(buffer)@ + Seq::new(i as nat, |j: int| 0u8),
        decreases pad - i,
    {
        buffer.push(0u8);
        proof {
            assert(buffer@ =~= old(buffer)@ + Seq::new((i + 1) as nat, |j: int| 0u8));
        }
        i = i + 1;
    }
    Ok((dims.0, dims.1, colortype))
}

} // verus!
