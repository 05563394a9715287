//! From a colour channel to a byte.
use crate::structs::compare::{clamp, clamped};
use crate::structs::scalar::{Scalar, SIGN_BIT};
use vstd::arithmetic::power2::{lemma2_to64, lemma2_to64_rest, pow2};
use vstd::prelude::*;

verus! {

/// The number of patterns that share one exponent: 2 to the 52.
pub const FRACTION_SPAN: u64 = 0x10_0000_0000_0000;

/// The pattern of 0.999, the brightest channel.
pub const BRIGHTEST_BITS: u64 = 0x3fef_f7ce_d916_872b;

/// The exponent field of a pattern.
pub open spec fn exponent(value: Scalar) -> int {
    value.magnitude() / (FRACTION_SPAN as int)
}

/// The significand of a finite quantity: the fraction field, and before it
/// a one unless the exponent field is 0.
pub open spec fn significand(value: Scalar) -> int {
    if exponent(value) == 0 {
        value.magnitude() % (FRACTION_SPAN as int)
    } else {
        FRACTION_SPAN + value.magnitude() % (FRACTION_SPAN as int)
    }
}

/// How many times the significand of a finite quantity has to be halved to
/// give the size of the quantity: 1075 less the exponent field, which
/// counts as 1 where it is 0.
pub open spec fn halvings(value: Scalar) -> int {
    if exponent(value) == 0 {
        1074
    } else {
        1075 - exponent(value)
    }
}

/// 256 times the size of a quantity below 1, rounded down: 256 is 2 to the
/// 8, so the significand is halved 8 times less.
pub open spec fn level(value: Scalar) -> int
    recommends
        halvings(value) >= 8,
{
    significand(value) / (pow2((halvings(value) - 8) as nat) as int)
}

/// The byte of a colour channel: the channel is clamped to the range from
/// 0 to 0.999, multiplied by 256 and rounded down. A NaN gives 0.
pub open spec fn channel_of(value: Scalar) -> int {
    let c = clamped(value, Scalar { bits: 0 }, Scalar { bits: BRIGHTEST_BITS });
    if c.nan() {
        0
    } else {
        level(c)
    }
}

/// The byte of a colour channel.
pub fn channel(value: Scalar) -> (byte: u8)
    ensures
        byte == channel_of(value),
{
    let c = clamp(value, Scalar::zero(), Scalar::from_bits(BRIGHTEST_BITS));
    if c.is_nan() {
        return 0;
    }
    let magnitude: u64 = if c.bits >= SIGN_BIT {
        c.bits - SIGN_BIT
    } else {
        c.bits
    };
    let field: u64 = magnitude / FRACTION_SPAN;
    proof {
        lemma2_to64();
        lemma2_to64_rest();
        assert(magnitude <= BRIGHTEST_BITS);
        assert(field <= 1022);
        assert(field == exponent(c));
    }
    if field < 1015 {
        proof {
            let halved: nat = (halvings(c) - 8) as nat;
            assert(halved >= 53);
            vstd::arithmetic::power2::lemma_pow2_strictly_increases(52, halved);
            assert(significand(c) < 2 * FRACTION_SPAN);
            assert(pow2(53) == 2 * pow2(52)) by {
                vstd::arithmetic::power2::lemma_pow2_unfold(53);
            }
            if halved > 53 {
                vstd::arithmetic::power2::lemma_pow2_strictly_increases(53, halved);
            }
            vstd::arithmetic::div_mod::lemma_basic_div(
                significand(c),
                pow2(halved) as int,
            );
        }
        return 0;
    }
    let whole: u64 = FRACTION_SPAN + magnitude % FRACTION_SPAN;
    let shift: u64 = 1067 - field;
    proof {
        assert(whole == significand(c));
        assert(shift == halvings(c) - 8);
        assert(45 <= shift <= 52);
        vstd::bits::lemma_u64_shr_is_div(whole, shift);
        assert(whole < 0x20_0000_0000_0000);
        assert((whole as int) / (pow2(shift as nat) as int) < 256) by {
            if shift == 45 {
                assert(pow2(45) == 0x2000_0000_0000);
            } else if shift == 46 {
                assert(pow2(46) == 0x4000_0000_0000);
            } else if shift == 47 {
                assert(pow2(47) == 0x8000_0000_0000);
            } else if shift == 48 {
                assert(pow2(48) == 0x1_0000_0000_0000);
            } else if shift == 49 {
                assert(pow2(49) == 0x2_0000_0000_0000);
            } else if shift == 50 {
                assert(pow2(50) == 0x4_0000_0000_0000);
            } else if shift == 51 {
                assert(pow2(51) == 0x8_0000_0000_0000);
            } else {
                assert(pow2(52) == 0x10_0000_0000_0000);
            }
        }
    }
    (whole >> shift) as u8
}

} // verus!
