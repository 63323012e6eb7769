//! Single-precision numbers, read by their bits.
//!
//! A binary32 number has a sign bit, eight exponent bits and twenty-three fraction bits.
//! The functions here take the 32 bits as a `u32` and answer questions about the number
//! they encode without ever computing in floating point.

use vstd::prelude::*;
use vstd::arithmetic::div_mod::{
    lemma_basic_div,
    lemma_div_is_ordered,
    lemma_div_is_ordered_by_denominator,
    lemma_fundamental_div_mod,
    lemma_mod_bound,
};
use vstd::arithmetic::power2::{
    lemma2_to64,
    lemma_pow2_adds,
    lemma_pow2_pos,
    lemma_pow2_strictly_increases,
    lemma_pow2_unfold,
    pow2,
};
use vstd::bits::lemma_u32_shr_is_div;

verus! {

/// The sign bit, alone.
pub const SIGN: u32 = 0x8000_0000;

/// Positive infinity. Every pattern whose low 31 bits exceed this one is a NaN.
pub const INFINITY: u32 = 0x7f80_0000;

/// The lowest exponent bit, alone: fraction bits lie below it.
pub const HIDDEN: u32 = 0x0080_0000;

/// The exponent field of the number one.
pub const BIAS: u32 = 127;

/// Whether the sign bit is set. It may be set on a zero, an infinity or a NaN as well.
pub open spec fn is_negative(bits: u32) -> bool {
    bits >= SIGN
}

/// The low 31 bits: exponent and fraction, without the sign.
pub open spec fn magnitude(bits: u32) -> int {
    if bits >= SIGN {
        bits - SIGN
    } else {
        bits as int
    }
}

/// Whether the pattern encodes no number at all.
pub open spec fn is_nan(bits: u32) -> bool {
    magnitude(bits) > INFINITY
}

/// Where a number stands on the number line, counted in representable steps from zero.
/// Larger numbers have larger ranks, and the two zeros share rank 0.
pub open spec fn rank(bits: u32) -> int {
    if is_negative(bits) {
        -magnitude(bits)
    } else {
        magnitude(bits)
    }
}

/// The order `<` of binary32: false as soon as either side is a NaN, and otherwise the
/// order of the encoded numbers.
pub open spec fn less(a: u32, b: u32) -> bool {
    !is_nan(a) && !is_nan(b) && rank(a) < rank(b)
}

/// Decides `a < b` for two binary32 numbers given by their bits.
pub fn less_than(a: u32, b: u32) -> (r: bool)
    ensures
        r == less(a, b),
{
    let (a_negative, a_magnitude): (bool, u32) = split(a);
    let (b_negative, b_magnitude): (bool, u32) = split(b);
    if a_magnitude > INFINITY || b_magnitude > INFINITY {
        false
    } else if a_negative {
        if b_negative {
            a_magnitude > b_magnitude
        } else {
            a_magnitude > 0 || b_magnitude > 0
        }
    } else {
        !b_negative && a_magnitude < b_magnitude
    }
}

/// No number is less than itself, and of two numbers at most one is less than the other.
pub proof fn lemma_less_is_strict(a: u32, b: u32)
    ensures
        !less(a, a),
        less(a, b) ==> !less(b, a),
{
}

/// The order carries over: what is less than a number is less than every greater one.
pub proof fn lemma_less_is_transitive(a: u32, b: u32, c: u32)
    requires
        less(a, b),
        less(b, c),
    ensures
        less(a, c),
{
}

/// Two numbers of which neither is less than the other are equal as numbers: they have
/// the same rank, though their bits may differ where both are zero.
pub proof fn lemma_less_orders_all_numbers(a: u32, b: u32)
    requires
        !is_nan(a),
        !is_nan(b),
        !less(a, b),
        !less(b, a),
    ensures
        rank(a) == rank(b),
        a == b || (magnitude(a) == 0 && magnitude(b) == 0),
{
}

/// Parts a pattern into its sign and its magnitude.
pub fn split(bits: u32) -> (parts: (bool, u32))
    ensures
        parts.0 == is_negative(bits),
        parts.1 == magnitude(bits),
{
    if bits >= SIGN {
        (true, bits - SIGN)
    } else {
        (false, bits)
    }
}

/// The exponent field, from 0 to 255.
pub open spec fn exponent(bits: u32) -> int {
    magnitude(bits) / (HIDDEN as int)
}

/// The fraction field, below `HIDDEN`.
pub open spec fn fraction(bits: u32) -> int {
    magnitude(bits) % (HIDDEN as int)
}

/// The digits of the number as a whole number. A number with a nonzero exponent field has
/// a leading one above its fraction.
pub open spec fn significand(bits: u32) -> int {
    if exponent(bits) == 0 {
        fraction(bits)
    } else {
        HIDDEN + fraction(bits)
    }
}

/// The power of two by which the significand is multiplied: a finite number has the
/// absolute value `significand * 2^scale`.
pub open spec fn scale(bits: u32) -> int {
    if exponent(bits) == 0 {
        1 - BIAS - 23
    } else {
        exponent(bits) - BIAS - 23
    }
}

/// The absolute value of a finite number, rounded towards zero to a whole number.
pub open spec fn whole_part(bits: u32) -> int {
    if scale(bits) >= 0 {
        significand(bits) * pow2(scale(bits) as nat)
    } else {
        significand(bits) / (pow2((-scale(bits)) as nat) as int)
    }
}

/// The byte that a number becomes: the number rounded towards zero and held to the range
/// of a byte. Negative numbers give 0, numbers from 255 up and positive infinity give 255,
/// and a NaN gives 0.
pub open spec fn byte_of(bits: u32) -> int {
    if is_nan(bits) || is_negative(bits) {
        0
    } else if magnitude(bits) == INFINITY || whole_part(bits) > 255 {
        255
    } else {
        whole_part(bits)
    }
}

/// Converts a binary32 number, given by its bits, to a byte.
pub fn to_byte(bits: u32) -> (byte: u8)
    ensures
        byte == byte_of(bits),
{
    if bits >= SIGN || bits > INFINITY {
        return 0;
    }
    let exponent: u32 = bits / HIDDEN;
    let digits: u32 = HIDDEN + bits % HIDDEN;
    if exponent < BIAS {
        proof {
            lemma_below_one(bits);
        }
        0
    } else if exponent > BIAS + 7 {
        proof {
            lemma_beyond_a_byte(bits);
        }
        255
    } else {
        let shift: u32 = BIAS + 23 - exponent;
        proof {
            lemma2_to64();
            lemma_u32_shr_is_div(digits, shift);
            lemma_div_is_ordered_by_denominator(digits as int, 0x1_0000, pow2(shift as nat) as int);
        }
        (digits >> shift) as u8
    }
}

/// The conversion to a byte keeps the order of the numbers: a greater number never gives a
/// smaller byte. In particular a channel that grows beyond the range of a byte stays at
/// 255 and does not wrap around.
pub proof fn lemma_byte_keeps_order(a: u32, b: u32)
    requires
        less(a, b),
    ensures
        byte_of(a) <= byte_of(b),
{
    lemma_byte_in_range(a);
    lemma_byte_in_range(b);
    if !is_negative(a) && magnitude(b) != INFINITY {
        let (low, high) = (exponent(a), exponent(b));
        assert(low <= high);
        if low < BIAS {
            lemma_below_one(a);
        } else if high > BIAS + 7 {
            lemma_beyond_a_byte(b);
        } else if low == high {
            lemma2_to64();
            let unit = pow2((-scale(a)) as nat) as int;
            lemma_div_is_ordered(significand(a), significand(b), unit);
        } else {
            lemma_whole_part_in_octave(a);
            lemma_whole_part_in_octave(b);
            lemma_pow2_strictly_increases((low - BIAS) as nat, (high - BIAS) as nat);
            lemma_pow2_unfold((low - BIAS + 1) as nat);
            if low + 1 < high {
                lemma_pow2_strictly_increases((low - BIAS + 1) as nat, (high - BIAS) as nat);
            }
        }
    }
}

/// Every number becomes a byte: the conversion stays between 0 and 255.
pub proof fn lemma_byte_in_range(bits: u32)
    ensures
        0 <= byte_of(bits) <= 255,
{
    if !is_nan(bits) && !is_negative(bits) && magnitude(bits) != INFINITY {
        if scale(bits) >= 0 {
            lemma_beyond_a_byte(bits);
        } else {
            lemma_pow2_pos((-scale(bits)) as nat);
            lemma_div_is_ordered(0, significand(bits), pow2((-scale(bits)) as nat) as int);
        }
    }
}

/// A number from one up to, but not including, 256 has a whole part with as many binary
/// digits as its exponent field lies above that of one, and one more.
proof fn lemma_whole_part_in_octave(bits: u32)
    requires
        !is_negative(bits),
        BIAS <= exponent(bits) <= BIAS + 7,
    ensures
        pow2((exponent(bits) - BIAS) as nat) <= whole_part(bits) < 2 * pow2(
            (exponent(bits) - BIAS) as nat,
        ),
{
    let digits = significand(bits);
    let shift = (BIAS + 23 - exponent(bits)) as nat;
    let octave = (exponent(bits) - BIAS) as nat;
    lemma2_to64();
    lemma_pow2_adds(octave, shift);
    lemma_pow2_pos(shift);
    assert(whole_part(bits) == digits / (pow2(shift) as int));
    assert(pow2(octave) * pow2(shift) == HIDDEN);
    lemma_fundamental_div_mod(digits, pow2(shift) as int);
    lemma_mod_bound(digits, pow2(shift) as int);
    let (whole, unit, steps) = (digits / (pow2(shift) as int), pow2(shift) as int, pow2(octave) as int);
    assert(steps <= whole < 2 * steps) by (nonlinear_arith)
        requires
            unit > 0,
            steps * unit <= digits < 2 * (steps * unit),
            digits == unit * whole + digits % unit,
            0 <= digits % unit < unit,
    ;
}

/// A number whose exponent field is below that of one has no whole part.
proof fn lemma_below_one(bits: u32)
    requires
        !is_negative(bits),
        exponent(bits) < BIAS,
    ensures
        whole_part(bits) == 0,
{
    let shift = (-scale(bits)) as nat;
    lemma2_to64();
    if shift > 24 {
        lemma_pow2_strictly_increases(24, shift);
    }
    lemma_basic_div(significand(bits), pow2(shift) as int);
}

/// A number whose exponent field is eight or more above that of one is at least 256.
proof fn lemma_beyond_a_byte(bits: u32)
    requires
        !is_negative(bits),
        exponent(bits) > BIAS + 7,
    ensures
        whole_part(bits) > 255,
{
    let digits = significand(bits);
    lemma2_to64();
    if scale(bits) >= 0 {
        let factor = pow2(scale(bits) as nat);
        lemma_pow2_pos(scale(bits) as nat);
        assert(digits * factor >= digits) by (nonlinear_arith)
            requires
                digits >= 0,
                factor >= 1,
        ;
    } else {
        let shift = (-scale(bits)) as nat;
        if shift < 15 {
            lemma_pow2_strictly_increases(shift, 15);
        }
        lemma_pow2_pos(shift);
        lemma_div_is_ordered_by_denominator(digits, pow2(shift) as int, 0x8000);
    }
}

} // verus!
