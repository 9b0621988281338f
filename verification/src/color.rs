//! Scaling of packed 24-bit RGB colors by a light intensity.

use vstd::prelude::*;
use crate::math::clamp_spec;
use crate::math::clamp_i64;

verus! {

/// `base` with each 8-bit channel multiplied by `intensity` (fixed-point,
/// `FP` = full brightness), truncating each channel product.
pub open spec fn shade_color_spec(base: u32, intensity: int) -> u32 {
    let i = clamp_spec(intensity, 0, 1000);
    let rch = ((base >> 16) & 0xFF) * i / 1000;
    let gch = ((base >> 8) & 0xFF) * i / 1000;
    let bch = (base & 0xFF) * i / 1000;
    (rch * 65536 + gch * 256 + bch) as u32
}

/// Applies a light intensity to a packed color, channel by channel.
pub fn shade_color(base: u32, intensity: i64) -> (c: u32)
    ensures
        c == shade_color_spec(base, intensity as int),
{
    let i: i64 = clamp_i64(intensity, 0, 1000);
    proof {
        assert((base >> 16) & 0xFF < 256 && (base >> 8) & 0xFF < 256 && base & 0xFF
            < 256) by (bit_vector);
    }
    proof {
        assert forall|a: int, b: int| 0 <= a < 256 && 0 <= b <= 1000 implies 0 <= #[trigger] (a
            * b) <= 255000 by {
            assert(0 <= a * b <= 255000) by (nonlinear_arith)
                requires
                    0 <= a < 256,
                    0 <= b <= 1000,
            ;
        }
    }
    let rch: i64 = (((base >> 16) & 0xFF) as i64) * i / 1000;
    let gch: i64 = (((base >> 8) & 0xFF) as i64) * i / 1000;
    let bch: i64 = ((base & 0xFF) as i64) * i / 1000;
    proof {
        vstd::arithmetic::div_mod::lemma_div_pos_is_pos(
            ((base >> 16) & 0xFF) * (i as int),
            1000,
        );
        vstd::arithmetic::div_mod::lemma_div_is_ordered(
            ((base >> 16) & 0xFF) * (i as int),
            255000,
            1000,
        );
        vstd::arithmetic::div_mod::lemma_div_pos_is_pos(((base >> 8) & 0xFF) * (i as int), 1000);
        vstd::arithmetic::div_mod::lemma_div_is_ordered(
            ((base >> 8) & 0xFF) * (i as int),
            255000,
            1000,
        );
        vstd::arithmetic::div_mod::lemma_div_pos_is_pos((base & 0xFF) * (i as int), 1000);
        vstd::arithmetic::div_mod::lemma_div_is_ordered((base & 0xFF) * (i as int), 255000, 1000);
    }
    let ru: u32 = rch as u32;
    let gu: u32 = gch as u32;
    let bu: u32 = bch as u32;
    proof {
        assert((ru << 16) | (gu << 8) | bu == ru * 65536 + gu * 256 + bu) by (bit_vector)
            requires
                ru < 256,
                gu < 256,
                bu < 256,
        ;
    }
    (ru << 16) | (gu << 8) | bu
}

} // verus!
