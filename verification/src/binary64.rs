//! Doubles, read from their IEEE-754 binary64 bit patterns.
//!
//! Several request settings are doubles. The library asks where one falls against a few whole numbers, which has an
//! exact answer in the integers once the pattern is split into its sign bit, its 11-bit exponent field and its 52-bit
//! fraction field; the arithmetic the framing does with a zoom or a factor is in [`crate::rounding`]. A finite
//! pattern stands for `significand * 2^scale`, negated when the sign bit is set; an exponent field of all ones is an
//! infinity or a NaN.

use vstd::prelude::*;
use vstd::arithmetic::power2::{lemma2_to64_rest, lemma_pow2_pos, lemma_pow2_strictly_increases, pow2};

use crate::rounding::power_of_two;

verus! {

/// One step of the exponent field, which sits above the 52 fraction bits.
pub const FRACTION_SPAN: u64 = 0x10_0000_0000_0000;

/// The sign bit.
pub const SIGN_BIT: u64 = 0x8000_0000_0000_0000;

/// The pattern of `1.0`.
pub const ONE: u64 = 0x3FF0_0000_0000_0000;

/// The 11-bit exponent field.
pub open spec fn exponent_field(bits: u64) -> int {
    ((bits / FRACTION_SPAN) % 2048) as int
}

/// The 52-bit fraction field.
pub open spec fn fraction_field(bits: u64) -> int {
    (bits % FRACTION_SPAN) as int
}

/// Whether the sign bit is set, which it is on negative zero too.
pub open spec fn is_negative(bits: u64) -> bool {
    bits >= SIGN_BIT
}

/// Neither an infinity nor a NaN.
pub open spec fn is_finite(bits: u64) -> bool {
    exponent_field(bits) != 2047
}

/// The integer the number is a power-of-two multiple of: the fraction field, with the implicit leading one above it
/// unless the number is subnormal.
pub open spec fn significand(bits: u64) -> nat {
    if exponent_field(bits) == 0 {
        fraction_field(bits) as nat
    } else {
        (fraction_field(bits) + pow2(52)) as nat
    }
}

/// The power of two a finite number is `significand` times.
pub open spec fn scale(bits: u64) -> int {
    if exponent_field(bits) == 0 {
        -1074
    } else {
        exponent_field(bits) - 1075
    }
}

/// `significand * 2^scale <= bound`, with the power of two moved to whichever side keeps it whole.
pub open spec fn magnitude_at_most(bits: u64, bound: nat) -> bool {
    if scale(bits) >= 0 {
        significand(bits) * pow2(scale(bits) as nat) <= bound
    } else {
        significand(bits) <= bound * pow2((-scale(bits)) as nat)
    }
}

/// `significand * 2^scale >= bound`, with the power of two moved to whichever side keeps it whole.
pub open spec fn magnitude_at_least(bits: u64, bound: nat) -> bool {
    if scale(bits) >= 0 {
        significand(bits) * pow2(scale(bits) as nat) >= bound
    } else {
        significand(bits) >= bound * pow2((-scale(bits)) as nat)
    }
}

/// A finite number in `[low, high]`. Zero of either sign is zero.
pub open spec fn between(bits: u64, low: nat, high: nat) -> bool {
    &&& is_finite(bits)
    &&& magnitude_at_most(bits, high)
    &&& if significand(bits) == 0 {
        low == 0
    } else {
        !is_negative(bits) && magnitude_at_least(bits, low)
    }
}

/// A finite number in `(0, high]`.
pub open spec fn positive_at_most(bits: u64, high: nat) -> bool {
    &&& is_finite(bits)
    &&& significand(bits) > 0
    &&& !is_negative(bits)
    &&& magnitude_at_most(bits, high)
}

/// A power of two no larger than the significand of a normal number is below `2^53`, so past that exponent any
/// positive multiple of `2^k` is larger than every significand.
proof fn lemma_beyond_significand(multiple: nat, k: nat, significand: nat)
    requires
        multiple >= 1,
        k >= 53,
        significand < 0x20_0000_0000_0000,
    ensures
        significand < pow2(k),
        significand < multiple * pow2(k),
{
    lemma2_to64_rest();
    if k > 53 {
        lemma_pow2_strictly_increases(53, k);
    }
    assert(pow2(k) <= multiple * pow2(k)) by (nonlinear_arith)
        requires
            multiple >= 1,
    ;
}

/// Whether the number's size, its value with the sign dropped, is at most `bound`. Meaningful for finite numbers.
pub fn magnitude_le(bits: u64, bound: u32) -> (at_most: bool)
    ensures
        at_most == magnitude_at_most(bits, bound as nat),
{
    proof {
        lemma2_to64_rest();
    }
    let exponent = bits / FRACTION_SPAN % 2048;
    let fraction = bits % FRACTION_SPAN;
    if exponent == 0 {
        proof {
            if bound >= 1 {
                lemma_beyond_significand(bound as nat, 1074, fraction as nat);
            } else {
                assert(bound as nat * pow2(1074) == 0) by (nonlinear_arith)
                    requires
                        bound == 0,
                ;
            }
        }
        bound >= 1 || fraction == 0
    } else {
        let significand = fraction + FRACTION_SPAN;
        if exponent >= 1075 {
            proof {
                let s = (exponent - 1075) as nat;
                lemma_pow2_pos(s);
                assert(significand * pow2(s) >= significand) by (nonlinear_arith)
                    requires
                        pow2(s) >= 1,
                ;
            }
            false
        } else {
            let k = 1075 - exponent;
            if k >= 53 {
                proof {
                    if bound >= 1 {
                        lemma_beyond_significand(bound as nat, k as nat, significand as nat);
                    } else {
                        assert(bound as nat * pow2(k as nat) == 0) by (nonlinear_arith)
                            requires
                                bound == 0,
                        ;
                    }
                }
                bound >= 1
            } else {
                let p = power_of_two(k as u32);
                proof {
                    if k < 52 {
                        lemma_pow2_strictly_increases(k as nat, 52);
                    }
                }
                assert((bound as u128) * p <= 0xffff_ffff * 0x10_0000_0000_0000) by (nonlinear_arith)
                    requires
                        bound <= 0xffff_ffff,
                        p <= 0x10_0000_0000_0000,
                ;
                (significand as u128) <= (bound as u128) * p
            }
        }
    }
}

/// Whether the number's size is at least `bound`. Meaningful for finite numbers.
pub fn magnitude_ge(bits: u64, bound: u32) -> (at_least: bool)
    ensures
        at_least == magnitude_at_least(bits, bound as nat),
{
    proof {
        lemma2_to64_rest();
    }
    let exponent = bits / FRACTION_SPAN % 2048;
    let fraction = bits % FRACTION_SPAN;
    if exponent == 0 {
        proof {
            if bound >= 1 {
                lemma_beyond_significand(bound as nat, 1074, fraction as nat);
            }
        }
        bound == 0
    } else {
        let significand = fraction + FRACTION_SPAN;
        if exponent >= 1075 {
            proof {
                let s = (exponent - 1075) as nat;
                lemma_pow2_pos(s);
                assert(significand * pow2(s) >= significand) by (nonlinear_arith)
                    requires
                        pow2(s) >= 1,
                ;
            }
            true
        } else {
            let k = 1075 - exponent;
            if k >= 53 {
                proof {
                    if bound >= 1 {
                        lemma_beyond_significand(bound as nat, k as nat, significand as nat);
                    }
                }
                bound == 0
            } else {
                let p = power_of_two(k as u32);
                proof {
                    if k < 52 {
                        lemma_pow2_strictly_increases(k as nat, 52);
                    }
                }
                assert((bound as u128) * p <= 0xffff_ffff * 0x10_0000_0000_0000) by (nonlinear_arith)
                    requires
                        bound <= 0xffff_ffff,
                        p <= 0x10_0000_0000_0000,
                ;
                (significand as u128) >= (bound as u128) * p
            }
        }
    }
}

/// Whether the number is finite and in `[low, high]`, the way `(low..=high).contains(&x)` after an `is_finite` check
/// decides it.
pub fn is_between(bits: u64, low: u32, high: u32) -> (inside: bool)
    ensures
        inside == between(bits, low as nat, high as nat),
{
    proof {
        lemma_pow2_pos(52);
    }
    let exponent = bits / FRACTION_SPAN % 2048;
    let fraction = bits % FRACTION_SPAN;
    if exponent == 2047 || !magnitude_le(bits, high) {
        return false;
    }
    if exponent == 0 && fraction == 0 {
        low == 0
    } else {
        bits < SIGN_BIT && magnitude_ge(bits, low)
    }
}

/// Whether the number is finite, above zero and at most `high`.
pub fn is_positive_at_most(bits: u64, high: u32) -> (inside: bool)
    ensures
        inside == positive_at_most(bits, high as nat),
{
    proof {
        lemma_pow2_pos(52);
    }
    let exponent = bits / FRACTION_SPAN % 2048;
    let fraction = bits % FRACTION_SPAN;
    exponent != 2047 && !(exponent == 0 && fraction == 0) && bits < SIGN_BIT && magnitude_le(bits, high)
}

} // verus!
