//! Single-precision samples, handled by their IEEE 754 bit patterns.
//!
//! A pattern holds a sign in its top bit, eight bits of biased exponent and
//! twenty-three bits of fraction. Among the patterns with a clear sign the
//! numeric order of the encoded values is the order of the patterns
//! themselves, up to positive infinity; every pattern above that is a NaN.
//!
//! The module compares samples with a cutoff, makes the cutoff of the unit
//! range from a level between 0 and 255, and cuts a value to a whole number.
//! It does no arithmetic on the values themselves.

use vstd::arithmetic::div_mod::{
    lemma_basic_div, lemma_div_multiples_vanish, lemma_div_multiples_vanish_quotient,
    lemma_fundamental_div_mod_converse, lemma_mod_multiples_basic, lemma_small_mod, lemma_truncate_middle,
};
use vstd::arithmetic::power2::{
    lemma2_to64, lemma2_to64_rest, lemma_pow2_adds, lemma_pow2_pos, lemma_pow2_strictly_increases,
    lemma_pow2_unfold, pow2,
};
use vstd::prelude::*;

verus! {

/// The pattern of positive zero.
pub const ZERO_BITS: u32 = 0;

/// The pattern of one.
pub const ONE_BITS: u32 = 0x3F80_0000;

/// The pattern of positive infinity, the largest pattern that is not a NaN
/// among those with a clear sign.
pub const INFINITY_BITS: u32 = 0x7F80_0000;

/// The value of the lowest bit of the exponent field: two to the power 23.
pub const HIDDEN_BIT: u32 = 0x80_0000;

/// The value of the sign bit: a pattern from here on has its sign set.
pub const SIGN_BIT: u32 = 0x8000_0000;

/// The biased exponent of one.
pub const EXPONENT_BIAS: u32 = 127;

/// The biased exponent from which on a value has no part beyond the whole
/// one: the bias and the 23 bits of the fraction.
pub const WHOLE_EXPONENT: u32 = 150;

/// Whether the value encoded by `sample` is strictly greater than the value
/// encoded by `cutoff`, for a `cutoff` that is finite and not negative.
///
/// A NaN is greater than nothing, and neither is a negative value or a zero of
/// either sign: what is left are the patterns with a clear sign, in their own
/// order.
pub open spec fn exceeds(sample: u32, cutoff: u32) -> bool {
    cutoff < sample && sample <= INFINITY_BITS
}

/// Executable form of [`exceeds`].
pub fn sample_exceeds(sample: u32, cutoff: u32) -> (greater: bool)
    ensures
        greater == exceeds(sample, cutoff),
{
    cutoff < sample && sample <= INFINITY_BITS
}

/// The power of two by which `level` is scaled before it is divided by 255:
/// two to the power 23, doubled until `level * unit_scale(level) / 255` has
/// its leading bit at position 23.
pub open spec fn unit_scale(level: u8) -> nat {
    if level >= 255 {
        0x80_0000
    } else if level >= 128 {
        0x100_0000
    } else if level >= 64 {
        0x200_0000
    } else if level >= 32 {
        0x400_0000
    } else if level >= 16 {
        0x800_0000
    } else if level >= 8 {
        0x1000_0000
    } else if level >= 4 {
        0x2000_0000
    } else if level >= 2 {
        0x4000_0000
    } else {
        0x8000_0000
    }
}

/// The biased exponent of the quotient `level / 255` for a `level` above zero.
pub open spec fn unit_exponent(level: u8) -> nat {
    if level >= 255 {
        127
    } else if level >= 128 {
        126
    } else if level >= 64 {
        125
    } else if level >= 32 {
        124
    } else if level >= 16 {
        123
    } else if level >= 8 {
        122
    } else if level >= 4 {
        121
    } else if level >= 2 {
        120
    } else {
        119
    }
}

/// The 24-bit significand of the quotient `level / 255`: the whole number
/// nearest to `level * unit_scale(level) / 255`. The divisor is odd, so no
/// quotient lies halfway between two whole numbers.
pub open spec fn unit_significand(level: u8) -> nat {
    ((level * unit_scale(level) + 127) / 255) as nat
}

/// The pattern of `level / 255` rounded to the nearest single-precision
/// value: the cutoff against which a sample of the unit range is compared.
pub open spec fn unit_cutoff_bits(level: u8) -> u32 {
    if level == 0 {
        ZERO_BITS
    } else {
        ((unit_exponent(level) - 1) * HIDDEN_BIT + unit_significand(level)) as u32
    }
}

/// Computes [`unit_cutoff_bits`].
pub fn unit_cutoff(level: u8) -> (bits: u32)
    ensures
        bits == unit_cutoff_bits(level),
        bits <= ONE_BITS,
{
    if level == 0 {
        return ZERO_BITS;
    }
    let (scale, exponent): (u64, u32) = if level >= 255 {
        (0x80_0000, 127)
    } else if level >= 128 {
        (0x100_0000, 126)
    } else if level >= 64 {
        (0x200_0000, 125)
    } else if level >= 32 {
        (0x400_0000, 124)
    } else if level >= 16 {
        (0x800_0000, 123)
    } else if level >= 8 {
        (0x1000_0000, 122)
    } else if level >= 4 {
        (0x2000_0000, 121)
    } else if level >= 2 {
        (0x4000_0000, 120)
    } else {
        (0x8000_0000, 119)
    };
    let significand: u64 = ((level as u64) * scale + 127) / 255;
    proof {
        lemma_unit_significand_is_nearest(level);
    }
    (exponent - 1) * HIDDEN_BIT + (significand as u32)
}

/// Adding 127 and dividing by 255 rounds to the nearest whole number.
proof fn lemma_rounded_quotient(numerator: int)
    requires
        numerator >= 0,
    ensures
        -127 <= 255 * ((numerator + 127) / 255) - numerator <= 127,
{
}

/// The significand of a cutoff is normalised, and it is the nearest whole
/// number to the exact quotient: they differ by less than half a unit.
pub proof fn lemma_unit_significand_is_nearest(level: u8)
    requires
        level > 0,
    ensures
        HIDDEN_BIT <= unit_significand(level) < 2 * HIDDEN_BIT,
        level == 255 ==> unit_significand(level) == HIDDEN_BIT,
        -127 <= 255 * unit_significand(level) - level * unit_scale(level) <= 127,
{
    let scaled: int = if level >= 255 {
        level * 0x80_0000
    } else if level >= 128 {
        level * 0x100_0000
    } else if level >= 64 {
        level * 0x200_0000
    } else if level >= 32 {
        level * 0x400_0000
    } else if level >= 16 {
        level * 0x800_0000
    } else if level >= 8 {
        level * 0x1000_0000
    } else if level >= 4 {
        level * 0x2000_0000
    } else if level >= 2 {
        level * 0x4000_0000
    } else {
        level * 0x8000_0000
    };
    assert(scaled == level * unit_scale(level));
    assert(255 * 0x80_0000 <= scaled <= 254 * 0x100_0000);
    lemma_rounded_quotient(scaled);
    assert(unit_significand(level) == (scaled + 127) / 255);
}

/// A brighter level never has a lower cutoff, and only the level 255 has
/// the cutoff one.
pub proof fn lemma_unit_cutoff_monotonic(low: u8, high: u8)
    requires
        low <= high,
    ensures
        unit_cutoff_bits(low) <= unit_cutoff_bits(high),
        unit_cutoff_bits(high) <= ONE_BITS,
        high < 255 ==> unit_cutoff_bits(high) < ONE_BITS,
        unit_cutoff_bits(255) == ONE_BITS,
{
    lemma_unit_significand_is_nearest(255);
    if high > 0 {
        lemma_unit_significand_is_nearest(high);
        let top = (unit_exponent(high) - 1) * HIDDEN_BIT + unit_significand(high);
        assert(top < (unit_exponent(high) + 1) * HIDDEN_BIT);
        assert(unit_exponent(high) <= 127);
        assert(high < 255 ==> unit_exponent(high) <= 126);
        if low > 0 {
            lemma_unit_significand_is_nearest(low);
            let bottom = (unit_exponent(low) - 1) * HIDDEN_BIT + unit_significand(low);
            if unit_exponent(low) == unit_exponent(high) {
                assert(unit_scale(low) == unit_scale(high));
                let scale = unit_scale(low);
                assert(low * scale <= high * scale) by (nonlinear_arith)
                    requires
                        low <= high,
                        scale >= 0,
                ;
                assert(unit_significand(low) <= unit_significand(high));
            } else {
                assert(unit_exponent(low) + 1 <= unit_exponent(high));
                assert(bottom < (unit_exponent(low) + 1) * HIDDEN_BIT);
                assert((unit_exponent(low) + 1) * HIDDEN_BIT <= unit_exponent(high) * HIDDEN_BIT);
                assert(unit_exponent(high) * HIDDEN_BIT <= top);
            }
        }
    }
}

/// The pattern without its sign.
pub open spec fn magnitude(bits: u32) -> nat {
    (bits % SIGN_BIT) as nat
}

/// Whether the sign of the pattern is set. It is for minus zero too.
pub open spec fn is_negative(bits: u32) -> bool {
    bits >= SIGN_BIT
}

/// Whether the pattern encodes no number.
pub open spec fn is_nan(bits: u32) -> bool {
    magnitude(bits) > INFINITY_BITS
}

/// Whether the pattern encodes a number that is not infinite.
pub open spec fn is_finite(bits: u32) -> bool {
    magnitude(bits) < INFINITY_BITS
}

/// The eight bits of the exponent, as they are stored.
pub open spec fn biased_exponent(bits: u32) -> nat {
    magnitude(bits) / (HIDDEN_BIT as nat)
}

/// The significand of a finite pattern. Its value is the significand times
/// two to the power of the biased exponent less [`WHOLE_EXPONENT`], with the
/// biased exponent zero counted as one and the hidden bit left out there.
pub open spec fn significand(bits: u32) -> nat {
    if magnitude(bits) < HIDDEN_BIT {
        magnitude(bits)
    } else {
        HIDDEN_BIT as nat + magnitude(bits) % (HIDDEN_BIT as nat)
    }
}

/// The whole part of the size of a finite value: the value without its sign,
/// rounded down.
pub open spec fn whole_part(bits: u32) -> nat {
    let exponent = biased_exponent(bits);
    if exponent < EXPONENT_BIAS {
        0
    } else if exponent < WHOLE_EXPONENT {
        significand(bits) / pow2((WHOLE_EXPONENT - exponent) as nat)
    } else {
        significand(bits) * pow2((exponent - WHOLE_EXPONENT) as nat)
    }
}

/// Whether a finite value has a part beyond its whole part.
pub open spec fn has_fraction(bits: u32) -> bool {
    let exponent = biased_exponent(bits);
    if exponent < EXPONENT_BIAS {
        magnitude(bits) != 0
    } else if exponent < WHOLE_EXPONENT {
        significand(bits) % pow2((WHOLE_EXPONENT - exponent) as nat) != 0
    } else {
        false
    }
}

/// The size of a value in steps of two to the power -149, the smallest
/// difference between two values: the significand times two to the power of
/// the biased exponent less one. Positive infinity counts as the size that
/// its pattern would have as a number.
pub open spec fn size_in_steps(bits: u32) -> nat {
    if biased_exponent(bits) == 0 {
        significand(bits)
    } else {
        significand(bits) * pow2((biased_exponent(bits) - 1) as nat)
    }
}

/// The value as an unsigned 32-bit number, as a cast makes it: rounded
/// towards zero, with zero for a negative value and for a NaN, and the
/// largest number for a value beyond it.
pub open spec fn truncated(bits: u32) -> u32 {
    if is_nan(bits) || is_negative(bits) {
        0
    } else if !is_finite(bits) || whole_part(bits) > u32::MAX {
        u32::MAX
    } else {
        whole_part(bits) as u32
    }
}

/// Whether the value lies between the whole numbers `low` and `high`, both
/// included. A NaN lies nowhere, and a zero of either sign is zero.
pub open spec fn lies_within(bits: u32, low: nat, high: nat) -> bool {
    if is_nan(bits) {
        false
    } else if magnitude(bits) == 0 {
        low == 0
    } else if is_negative(bits) || !is_finite(bits) {
        false
    } else {
        low <= whole_part(bits) && (whole_part(bits) < high || (whole_part(bits) == high && !has_fraction(bits)))
    }
}

/// Two to the power `exponent`.
fn power_of_two(exponent: u32) -> (power: u64)
    requires
        exponent < 64,
    ensures
        power == pow2(exponent as nat),
        exponent <= 40 ==> power <= 0x100_0000_0000,
        exponent <= 23 ==> power <= 0x80_0000,
        exponent <= 8 ==> power <= 0x100,
        power >= 1,
{
    proof {
        lemma2_to64();
        lemma2_to64_rest();
    }
    let mut power: u64 = 1;
    let mut i: u32 = 0;
    while i < exponent
        invariant
            i <= exponent < 64,
            power == pow2(i as nat),
            pow2(0) == 1,
            pow2(63) == 0x8000_0000_0000_0000,
        decreases exponent - i,
    {
        proof {
            lemma_pow2_unfold((i + 1) as nat);
            if i + 1 < 63 {
                lemma_pow2_strictly_increases((i + 1) as nat, 63);
            }
        }
        power = power * 2;
        i += 1;
    }
    proof {
        if exponent < 40 {
            lemma_pow2_strictly_increases(exponent as nat, 40);
        }
        if exponent < 23 {
            lemma_pow2_strictly_increases(exponent as nat, 23);
        }
        if exponent < 8 {
            lemma_pow2_strictly_increases(exponent as nat, 8);
        }
        if exponent > 0 {
            lemma_pow2_strictly_increases(0, exponent as nat);
        }
    }
    power
}

/// Computes [`truncated`].
pub fn truncate(bits: u32) -> (whole: u32)
    ensures
        whole == truncated(bits),
{
    if bits >= SIGN_BIT || bits > INFINITY_BITS {
        return 0;
    }
    if bits == INFINITY_BITS {
        return u32::MAX;
    }
    let exponent = bits / HIDDEN_BIT;
    if exponent < EXPONENT_BIAS {
        return 0;
    }
    let significand = HIDDEN_BIT + bits % HIDDEN_BIT;
    if exponent >= WHOLE_EXPONENT + 9 {
        proof {
            lemma2_to64();
            let shift = (exponent - WHOLE_EXPONENT) as nat;
            if shift > 9 {
                lemma_pow2_strictly_increases(9, shift);
            }
            assert(significand * pow2(shift) >= 0x80_0000 * 0x200) by (nonlinear_arith)
                requires
                    significand >= 0x80_0000,
                    pow2(shift) >= 0x200,
            ;
        }
        u32::MAX
    } else if exponent >= WHOLE_EXPONENT {
        let power = power_of_two(exponent - WHOLE_EXPONENT);
        assert(significand * power <= 0xFF_FFFF * 0x100) by (nonlinear_arith)
            requires
                significand <= 0xFF_FFFF,
                power <= 0x100,
        ;
        ((significand as u64) * power) as u32
    } else {
        let power = power_of_two(WHOLE_EXPONENT - exponent);
        ((significand as u64) / power) as u32
    }
}

/// Computes [`lies_within`].
pub fn within(bits: u32, low: usize, high: usize) -> (inside: bool)
    ensures
        inside == lies_within(bits, low as nat, high as nat),
{
    if bits % SIGN_BIT > INFINITY_BITS {
        return false;
    }
    if bits % SIGN_BIT == 0 {
        return low == 0;
    }
    if bits >= SIGN_BIT || bits == INFINITY_BITS {
        return false;
    }
    let exponent = bits / HIDDEN_BIT;
    if exponent < EXPONENT_BIAS {
        return low == 0 && high > 0;
    }
    let significand = HIDDEN_BIT + bits % HIDDEN_BIT;
    if exponent >= WHOLE_EXPONENT + 41 {
        proof {
            lemma2_to64();
            lemma2_to64_rest();
            let shift = (exponent - WHOLE_EXPONENT) as nat;
            if shift > 41 {
                lemma_pow2_strictly_increases(41, shift);
            }
            assert(significand * pow2(shift) >= 0x80_0000 * 0x200_0000_0000) by (nonlinear_arith)
                requires
                    significand >= 0x80_0000,
                    pow2(shift) >= 0x200_0000_0000,
            ;
        }
        false
    } else if exponent >= WHOLE_EXPONENT {
        let power = power_of_two(exponent - WHOLE_EXPONENT);
        assert(significand * power <= 0xFF_FFFF * 0x100_0000_0000) by (nonlinear_arith)
            requires
                significand <= 0xFF_FFFF,
                power <= 0x100_0000_0000,
        ;
        let whole = (significand as u64) * power;
        low as u64 <= whole && whole <= high as u64
    } else {
        let power = power_of_two(WHOLE_EXPONENT - exponent);
        let whole = (significand as u64) / power;
        let exact = (significand as u64) % power == 0;
        low as u64 <= whole && (whole < high as u64 || (whole == high as u64 && exact))
    }
}

/// The number of low bits that the product of a significand with 255 loses
/// when it is brought back to 24 bits: seven, or eight where the product
/// reaches 32 bits.
pub open spec fn product_drop(bits: u32) -> nat {
    if 255 * significand(bits) < 0x8000_0000 {
        7
    } else {
        8
    }
}

/// The significand of the product of a value with 255: the product of the
/// significands without its low bits, rounded to the nearest, and to the even
/// one of two that are equally near.
pub open spec fn product_significand(bits: u32) -> nat {
    let product = 255 * significand(bits);
    let unit: nat = if product < 0x8000_0000 {
        128
    } else {
        256
    };
    let kept = product / unit;
    let lost = product % unit;
    if 2 * lost > unit || (2 * lost == unit && kept % 2 == 1) {
        kept + 1
    } else {
        kept
    }
}

/// The power of two by which the significand of the product with 255 is
/// divided to give the product: the product is
/// `product_significand / 2^product_shift`.
pub open spec fn product_shift(bits: u32) -> int {
    WHOLE_EXPONENT - biased_exponent(bits) - product_drop(bits)
}

/// The product of a value with 255 as a byte, as a multiplication in single
/// precision and a cast make it: the product is rounded to the nearest
/// single-precision value and then towards zero, with zero for a negative
/// value and for a NaN, and 255 for a product beyond it.
pub open spec fn byte_cut(bits: u32) -> u8 {
    if is_nan(bits) || is_negative(bits) || biased_exponent(bits) == 0 {
        0
    } else if !is_finite(bits) || product_shift(bits) <= 0 {
        255
    } else {
        let whole = product_significand(bits) / pow2(product_shift(bits) as nat);
        if whole > 255 {
            255
        } else {
            whole as u8
        }
    }
}

/// A value of the unit range as a byte, as the conversion between sample
/// types makes it: a NaN and a value of one or more become 255, a negative
/// value becomes zero, and any other value is multiplied by 255 in single
/// precision and rounded to the nearest whole number, halves upwards.
pub open spec fn byte_rounded(bits: u32) -> u8 {
    if is_nan(bits) {
        255
    } else if is_negative(bits) {
        0
    } else if bits >= ONE_BITS {
        255
    } else if biased_exponent(bits) == 0 {
        0
    } else {
        let unit = pow2(product_shift(bits) as nat);
        let whole = product_significand(bits) / unit;
        let rest = product_significand(bits) % unit;
        let nearest = if 2 * rest >= unit {
            whole + 1
        } else {
            whole
        };
        if nearest > 255 {
            255
        } else {
            nearest as u8
        }
    }
}

/// The significand and the shift of the product of a positive value that is
/// neither subnormal nor infinite with 255.
fn product_parts(bits: u32) -> (parts: (u64, i32))
    requires
        !is_negative(bits),
        is_finite(bits),
        biased_exponent(bits) >= 1,
    ensures
        parts.0 == product_significand(bits),
        parts.1 == product_shift(bits),
        0x80_0000 <= parts.0 <= 0x100_0000,
{
    let exponent = bits / HIDDEN_BIT;
    let significand = (HIDDEN_BIT + bits % HIDDEN_BIT) as u64;
    let product: u64 = 255 * significand;
    let (unit, drop): (u64, i32) = if product < 0x8000_0000 {
        (128, 7)
    } else {
        (256, 8)
    };
    let kept = product / unit;
    let lost = product % unit;
    let rounded = if 2 * lost > unit || (2 * lost == unit && kept % 2 == 1) {
        kept + 1
    } else {
        kept
    };
    (rounded, WHOLE_EXPONENT as i32 - exponent as i32 - drop)
}

/// Computes [`byte_cut`].
pub fn cut_to_byte(bits: u32) -> (byte: u8)
    ensures
        byte == byte_cut(bits),
{
    if bits >= SIGN_BIT || bits > INFINITY_BITS || bits < HIDDEN_BIT {
        return 0;
    }
    if bits == INFINITY_BITS {
        return 255;
    }
    let (significand, shift) = product_parts(bits);
    if shift <= 0 {
        255
    } else if shift >= 26 {
        proof {
            lemma2_to64();
            if shift > 26 {
                lemma_pow2_strictly_increases(26, shift as nat);
            }
            lemma_basic_div(significand as int, pow2(shift as nat) as int);
        }
        0
    } else {
        let whole = significand / power_of_two(shift as u32);
        if whole > 255 {
            255
        } else {
            whole as u8
        }
    }
}

/// Computes [`byte_rounded`].
pub fn round_to_byte(bits: u32) -> (byte: u8)
    ensures
        byte == byte_rounded(bits),
{
    if bits % SIGN_BIT > INFINITY_BITS {
        return 255;
    }
    if bits >= SIGN_BIT {
        return 0;
    }
    if bits >= ONE_BITS {
        return 255;
    }
    if bits < HIDDEN_BIT {
        return 0;
    }
    let (significand, shift) = product_parts(bits);
    assert(shift >= 16);
    if shift >= 26 {
        proof {
            lemma2_to64();
            if shift > 26 {
                lemma_pow2_strictly_increases(26, shift as nat);
            }
            lemma_basic_div(significand as int, pow2(shift as nat) as int);
            lemma_small_mod(significand as nat, pow2(shift as nat));
        }
        0
    } else {
        let unit = power_of_two(shift as u32);
        let whole = significand / unit;
        let rest = significand % unit;
        let nearest = if 2 * rest >= unit {
            whole + 1
        } else {
            whole
        };
        if nearest > 255 {
            255
        } else {
            nearest as u8
        }
    }
}

/// The significand of a product with 255 is the nearest to the exact
/// product of the significands: it differs from it by at most half of what
/// the dropped bits can hold.
pub proof fn lemma_product_significand_is_nearest(bits: u32)
    requires
        biased_exponent(bits) >= 1,
    ensures
        0x80_0000 <= product_significand(bits) <= 0x100_0000,
        product_drop(bits) == 7 ==> -64 <= 128 * product_significand(bits) - 255 * significand(bits) <= 64,
        product_drop(bits) == 8 ==> -128 <= 256 * product_significand(bits) - 255 * significand(bits) <= 128,
{
}

/// The top of the unit range is the byte 255 and its bottom the byte zero,
/// whichever way the byte is made.
pub proof fn lemma_ends_of_unit_range_as_bytes()
    ensures
        byte_cut(ONE_BITS) == 255,
        byte_rounded(ONE_BITS) == 255,
        byte_cut(ZERO_BITS) == 0,
        byte_rounded(ZERO_BITS) == 0,
{
    lemma2_to64();
    assert(magnitude(ONE_BITS) == ONE_BITS);
    assert(biased_exponent(ONE_BITS) == 127);
    assert(significand(ONE_BITS) == 0x80_0000);
    assert(255 * significand(ONE_BITS) == 0x7F80_0000);
    assert(product_drop(ONE_BITS) == 7);
    assert(0x7F80_0000nat / 128 == 0xFF_0000 && 0x7F80_0000nat % 128 == 0);
    assert(product_significand(ONE_BITS) == 0xFF_0000);
    assert(product_shift(ONE_BITS) == 16);
    assert(pow2(16) == 0x1_0000);
    assert(0xFF_0000nat / 0x1_0000 == 255);
    assert(is_finite(ONE_BITS) && !is_nan(ONE_BITS) && !is_negative(ONE_BITS));
    assert(magnitude(ZERO_BITS) == 0);
    assert(biased_exponent(ZERO_BITS) == 0);
}

/// Among the patterns with a clear sign, up to positive infinity, the order
/// of the patterns is the order of the values they encode.
pub proof fn lemma_pattern_order_is_value_order(a: u32, b: u32)
    requires
        a <= INFINITY_BITS,
        b <= INFINITY_BITS,
    ensures
        a < b <==> size_in_steps(a) < size_in_steps(b),
        a == b <==> size_in_steps(a) == size_in_steps(b),
{
    if a < b {
        lemma_smaller_pattern_is_smaller_value(a, b);
    } else if b < a {
        lemma_smaller_pattern_is_smaller_value(b, a);
    }
}

/// A smaller pattern encodes a smaller value.
proof fn lemma_smaller_pattern_is_smaller_value(a: u32, b: u32)
    requires
        a < b <= INFINITY_BITS,
    ensures
        size_in_steps(a) < size_in_steps(b),
{
    let hidden = HIDDEN_BIT as nat;
    let (ea, eb) = (biased_exponent(a), biased_exponent(b));
    let (sa, sb) = (significand(a), significand(b));
    assert(magnitude(a) == a && magnitude(b) == b);
    assert(ea <= eb);
    assert(eb >= 1 ==> hidden <= sb < 2 * hidden);
    assert(ea >= 1 ==> hidden <= sa < 2 * hidden);
    assert(ea == 0 ==> sa < hidden);
    if ea == eb {
        assert(sa < sb);
        if ea > 0 {
            let power = pow2((ea - 1) as nat);
            lemma_pow2_pos((ea - 1) as nat);
            assert(sa * power < sb * power) by (nonlinear_arith)
                requires
                    sa < sb,
                    power > 0,
            ;
        }
    } else {
        let high = pow2((eb - 1) as nat);
        lemma_pow2_pos((eb - 1) as nat);
        assert(hidden * high <= sb * high) by (nonlinear_arith)
            requires
                hidden <= sb,
                high > 0,
        ;
        if ea == 0 {
            assert(hidden * 1 <= hidden * high) by (nonlinear_arith)
                requires
                    high >= 1,
            ;
        } else {
            let low = pow2((ea - 1) as nat);
            lemma_pow2_pos((ea - 1) as nat);
            lemma_pow2_unfold(ea);
            if ea < eb - 1 {
                lemma_pow2_strictly_increases(ea, (eb - 1) as nat);
            }
            assert(pow2(ea) <= high);
            assert(sa * low < 2 * hidden * low) by (nonlinear_arith)
                requires
                    sa < 2 * hidden,
                    low > 0,
            ;
            assert(2 * hidden * low == hidden * pow2(ea)) by (nonlinear_arith)
                requires
                    pow2(ea) == 2 * low,
            ;
            assert(hidden * pow2(ea) <= hidden * high) by (nonlinear_arith)
                requires
                    pow2(ea) <= high,
            ;
        }
    }
}

/// The number of steps in one: two to the power 149.
pub open spec fn steps_in_one() -> nat {
    pow2(149)
}

/// The whole part of a finite value is its size in steps, divided by the
/// steps in one and rounded down, and the value has a part beyond it exactly
/// when that division leaves a remainder.
pub proof fn lemma_whole_part_is_rounded_down(bits: u32)
    requires
        is_finite(bits),
    ensures
        whole_part(bits) == size_in_steps(bits) / steps_in_one(),
        has_fraction(bits) <==> size_in_steps(bits) % steps_in_one() != 0,
{
    let hidden = HIDDEN_BIT as nat;
    let exponent = biased_exponent(bits);
    let wide = significand(bits);
    let steps = size_in_steps(bits);
    let one = steps_in_one();
    lemma2_to64();
    lemma_pow2_pos(149);
    assert(exponent < 255);
    assert(wide < 2 * hidden);
    assert(exponent >= 1 ==> wide >= hidden);
    assert(pow2(24) == 2 * hidden);
    if exponent < EXPONENT_BIAS {
        // The value is below one: fewer steps than one holds.
        if exponent == 0 {
            lemma_pow2_strictly_increases(24, 149);
            assert(wide == magnitude(bits));
        } else {
            let low = pow2((exponent - 1) as nat);
            lemma_pow2_pos((exponent - 1) as nat);
            lemma_pow2_adds(24, (exponent - 1) as nat);
            if 24 + exponent - 1 < 149 {
                lemma_pow2_strictly_increases((24 + exponent - 1) as nat, 149);
            }
            assert(wide * low < pow2(24) * low) by (nonlinear_arith)
                requires
                    wide < pow2(24),
                    low > 0,
            ;
            assert(wide * low >= 1) by (nonlinear_arith)
                requires
                    wide >= 1,
                    low >= 1,
            ;
            assert(magnitude(bits) != 0);
        }
        assert(steps < one);
        lemma_basic_div(steps as int, one as int);
        lemma_small_mod(steps, one);
    } else if exponent < WHOLE_EXPONENT {
        // One holds the steps of the last place times a power of two.
        let low = pow2((exponent - 1) as nat);
        let cut = pow2((WHOLE_EXPONENT - exponent) as nat);
        lemma_pow2_pos((exponent - 1) as nat);
        lemma_pow2_pos((WHOLE_EXPONENT - exponent) as nat);
        lemma_pow2_adds((exponent - 1) as nat, (WHOLE_EXPONENT - exponent) as nat);
        assert(one == low * cut);
        lemma_div_multiples_vanish_quotient(low as int, wide as int, cut as int);
        lemma_truncate_middle(wide as int, low as int, cut as int);
        assert(steps == low * wide) by (nonlinear_arith)
            requires
                steps == wide * low,
        ;
        assert(steps % one == low * (wide % cut));
        assert(low * (wide % cut) != 0 <==> wide % cut != 0) by (nonlinear_arith)
            requires
                low > 0,
                wide % cut >= 0,
        ;
    } else {
        // The value is a whole number of ones.
        let high = pow2((exponent - WHOLE_EXPONENT) as nat);
        lemma_pow2_adds((exponent - WHOLE_EXPONENT) as nat, 149);
        assert(pow2((exponent - 1) as nat) == high * one);
        assert(steps == (wide * high) * one) by (nonlinear_arith)
            requires
                steps == wide * (high * one),
        ;
        lemma_mod_multiples_basic((wide * high) as int, one as int);
        lemma_div_multiples_vanish((wide * high) as int, one as int);
        assert(one * (wide * high) == (wide * high) * one) by (nonlinear_arith);
    }
}

/// A finite value that is not below zero lies within a band of whole
/// numbers exactly when its size lies between the sizes of the two ends.
pub proof fn lemma_lies_within_is_between(bits: u32, low: nat, high: nat)
    requires
        is_finite(bits),
        !is_negative(bits) || magnitude(bits) == 0,
    ensures
        lies_within(bits, low, high) <==> low * steps_in_one() <= size_in_steps(bits) <= high * steps_in_one(),
{
    let one = steps_in_one() as int;
    let steps = size_in_steps(bits) as int;
    let whole = steps / one;
    let rest = steps % one;
    lemma_pow2_pos(149);
    lemma_whole_part_is_rounded_down(bits);
    vstd::arithmetic::div_mod::lemma_fundamental_div_mod(steps, one);
    assert(steps == one * whole + rest && 0 <= rest < one);
    assert(whole >= 0) by (nonlinear_arith)
        requires
            steps >= 0,
            one > 0,
            steps == one * whole + rest,
            rest < one,
    ;
    assert(low <= whole <==> low * one <= steps) by (nonlinear_arith)
        requires
            steps == one * whole + rest,
            0 <= rest < one,
            one > 0,
    ;
    assert((whole < high || (whole == high && rest == 0)) <==> steps <= high * one) by (nonlinear_arith)
        requires
            steps == one * whole + rest,
            0 <= rest < one,
            one > 0,
    ;
    if magnitude(bits) == 0 {
        assert(biased_exponent(bits) == 0);
        assert(steps == 0);
        assert(low * one <= 0 <==> low == 0) by (nonlinear_arith)
            requires
                one > 0,
                low >= 0,
        ;
        assert(0 <= high * one) by (nonlinear_arith)
            requires
                one > 0,
                high >= 0,
        ;
    }
}

/// A sample exceeds a cutoff exactly when it is a number with a clear sign
/// whose value is greater than that of the cutoff.
pub proof fn lemma_exceeds_is_greater(sample: u32, cutoff: u32)
    requires
        cutoff < INFINITY_BITS,
    ensures
        exceeds(sample, cutoff) <==> !is_nan(sample) && !is_negative(sample) && size_in_steps(sample)
            > size_in_steps(cutoff),
{
    if sample <= INFINITY_BITS {
        lemma_pattern_order_is_value_order(cutoff, sample);
    } else {
        assert(is_nan(sample) || is_negative(sample));
    }
}

/// The cutoff of a level above zero decodes to the exponent and the
/// significand that it was made of, and the scale of the level is the power
/// of two that makes up for the exponent.
pub proof fn lemma_unit_cutoff_decodes(level: u8)
    requires
        level > 0,
    ensures
        !is_negative(unit_cutoff_bits(level)),
        is_finite(unit_cutoff_bits(level)),
        biased_exponent(unit_cutoff_bits(level)) == unit_exponent(level),
        significand(unit_cutoff_bits(level)) == unit_significand(level),
        unit_scale(level) == pow2((WHOLE_EXPONENT - unit_exponent(level)) as nat),
{
    lemma_unit_significand_is_nearest(level);
    lemma2_to64();
    let bits = unit_cutoff_bits(level);
    let exponent = unit_exponent(level);
    let fraction = unit_significand(level) - HIDDEN_BIT;
    assert(bits == exponent * HIDDEN_BIT + fraction);
    assert(0 <= fraction < HIDDEN_BIT);
    assert(magnitude(bits) == bits);
    lemma_fundamental_div_mod_converse(
        bits as int,
        HIDDEN_BIT as int,
        exponent as int,
        fraction as int,
    );
}

} // verus!
