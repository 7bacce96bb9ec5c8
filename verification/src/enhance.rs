//! The grey that the colour enhancer blends toward.
//!
//! The enhancers themselves blend in floating point and live with the rest of the floating-point pass; what they share
//! with everything else is this integer luma.

use vstd::prelude::*;

verus! {

/// Rec. 601 luma on gamma-encoded values, in 16-bit fixed point and rounded half up: `(19595 r + 38470 g + 7471 b +
/// 32768) / 65536`. The weights add up to 65536, so a grey pixel keeps its own level.
pub open spec fn spec_luma(r: u8, g: u8, b: u8) -> int {
    (19595 * r + 38470 * g + 7471 * b + 32768) / 65536
}

/// Rec. 601 luma, as PIL's `RGB -> L` conversion computes it.
///
/// Deliberately not a linear-light luminance, which lands far brighter (172 against 124 for the same pixel). The colour
/// enhancer blends toward this grey, so the choice sets how desaturation looks.
pub fn luma(r: u8, g: u8, b: u8) -> (grey: u8)
    ensures
        grey == spec_luma(r, g, b),
{
    let weighted = r as u32 * 19595 + g as u32 * 38470 + b as u32 * 7471 + 32768;
    assert(weighted / 65536 <= 255);
    (weighted / 65536) as u8
}

/// A grey pixel's luma is its own level, and luma never falls below the darkest channel nor rises above the brightest.
pub proof fn lemma_luma_stays_between_channels(r: u8, g: u8, b: u8)
    ensures
        spec_luma(r, r, r) == r,
        spec_luma(r, g, b) >= (if r <= g && r <= b { r } else if g <= b { g } else { b }),
        spec_luma(r, g, b) <= (if r >= g && r >= b { r } else if g >= b { g } else { b }),
{
    let low: int = if r <= g && r <= b { r as int } else if g <= b { g as int } else { b as int };
    let high: int = if r >= g && r >= b { r as int } else if g >= b { g as int } else { b as int };
    let weighted = 19595 * r + 38470 * g + 7471 * b + 32768;
    assert(weighted >= 65536 * low);
    assert(weighted < 65536 * (high + 1));
}

} // verus!
