//! Reading IEEE-754 binary32 values from their bit patterns.
use vstd::prelude::*;
use vstd::arithmetic::power2::pow2;

verus! {

/// The biased exponent field (bits 23 to 30).
pub open spec fn exponent_field(bits: u32) -> nat {
    (bits as nat / 0x80_0000) % 0x100
}

/// The fraction field (bits 0 to 22).
pub open spec fn fraction_field(bits: u32) -> nat {
    bits as nat % 0x80_0000
}

/// The pattern stands for a value greater than zero: a positive subnormal or
/// normal number, or positive infinity (not zero, not a NaN, sign bit clear).
pub open spec fn is_positive(bits: u32) -> bool {
    0 < bits <= 0x7f80_0000
}

/// The significand as an integer, with the implicit leading bit of a normal number.
pub open spec fn significand(bits: u32) -> nat {
    if exponent_field(bits) == 0 {
        fraction_field(bits)
    } else {
        fraction_field(bits) + 0x80_0000
    }
}

/// The exponent such that the magnitude is `significand * 2^(scale - 150)`.
pub open spec fn scale(bits: u32) -> nat {
    if exponent_field(bits) == 0 {
        1
    } else {
        exponent_field(bits)
    }
}

/// `floor(8 * |x|)` for the value `x` that the pattern stands for; eight times
/// the magnitude is `significand * 2^(scale - 147)`. Infinity reads as `2^128`.
pub open spec fn eighths_floor(bits: u32) -> nat {
    if scale(bits) >= 147 {
        significand(bits) * pow2((scale(bits) - 147) as nat)
    } else {
        significand(bits) / pow2((147 - scale(bits)) as nat)
    }
}

} // verus!
