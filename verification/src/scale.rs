//! From a single-precision number, given by its bit pattern, to a channel
//! value.
//!
//! A control argument arrives as an IEEE 754 single-precision number. The
//! bridge reads it as a fraction of the channel's maximum: the number is
//! multiplied by the maximum in single precision, so the product is rounded
//! to twenty-four significant bits, to nearest with ties to even; the product
//! is truncated toward zero, and the result is clamped to the channel's
//! range. A NaN counts as zero. One maps to the maximum exactly.

use vstd::prelude::*;
use vstd::arithmetic::power2::{pow2, lemma_pow2_pos, lemma_pow2_strictly_increases, lemma2_to64, lemma_pow2_adds};
use vstd::bits::lemma_u64_shr_is_div;

verus! {

/// The bit pattern of the number one.
pub const ONE_BITS: u32 = 0x3f80_0000;

/// The sign bit is set.
pub open spec fn sign_bit(bits: u32) -> bool {
    bits >= 0x8000_0000
}

/// The eight exponent bits.
pub open spec fn biased_exponent(bits: u32) -> nat {
    ((bits / 0x80_0000) % 256) as nat
}

/// The twenty-three fraction bits.
pub open spec fn fraction(bits: u32) -> nat {
    (bits % 0x80_0000) as nat
}

/// The pattern is a NaN.
pub open spec fn is_nan(bits: u32) -> bool {
    biased_exponent(bits) == 255 && fraction(bits) != 0
}

/// The pattern is an infinity.
pub open spec fn is_infinite(bits: u32) -> bool {
    biased_exponent(bits) == 255 && fraction(bits) == 0
}

/// The integer significand of a finite pattern: the fraction bits, with the
/// hidden leading bit unless the number is subnormal.
pub open spec fn significand(bits: u32) -> nat {
    if biased_exponent(bits) == 0 {
        fraction(bits)
    } else {
        fraction(bits) + 0x80_0000
    }
}

/// The exponent of a finite pattern, counted so that the magnitude of the
/// number is `significand(bits) * 2^(lift(bits) - 150)`.
pub open spec fn lift(bits: u32) -> nat {
    if biased_exponent(bits) == 0 {
        1
    } else {
        biased_exponent(bits)
    }
}

/// How many bits a product has beyond the twenty-four that a significand
/// holds. The product of a significand and a byte has at most thirty-two.
pub open spec fn excess_bits(product: nat) -> nat {
    if product < 0x100_0000 {
        0
    } else if product < 0x200_0000 {
        1
    } else if product < 0x400_0000 {
        2
    } else if product < 0x800_0000 {
        3
    } else if product < 0x1000_0000 {
        4
    } else if product < 0x2000_0000 {
        5
    } else if product < 0x4000_0000 {
        6
    } else if product < 0x8000_0000 {
        7
    } else {
        8
    }
}

/// `product` without its `drop` lowest bits, rounded to nearest, a tie going
/// to the even neighbour.
pub open spec fn round_half_even(product: nat, drop: nat) -> nat {
    let unit = pow2(drop);
    let quotient = product / unit;
    let rest = product % unit;
    if 2 * rest > unit || (2 * rest == unit && quotient % 2 == 1) {
        quotient + 1
    } else {
        quotient
    }
}

/// The significand of the single-precision product of a finite pattern and
/// `max`. The magnitude of that product is
/// `rounded_product(bits, max) * 2^(product_lift(bits, max) - 150)`.
pub open spec fn rounded_product(bits: u32, max: u8) -> nat {
    let product = significand(bits) * (max as nat);
    round_half_even(product, excess_bits(product))
}

/// The exponent of the single-precision product of a finite pattern and
/// `max`.
pub open spec fn product_lift(bits: u32, max: u8) -> nat {
    lift(bits) + excess_bits(significand(bits) * (max as nat))
}

/// The magnitude of the single-precision product of a finite pattern and
/// `max`, truncated to an integer.
pub open spec fn floor_scaled(bits: u32, max: u8) -> nat {
    if product_lift(bits, max) >= 150 {
        rounded_product(bits, max) * pow2((product_lift(bits, max) - 150) as nat)
    } else {
        rounded_product(bits, max) / pow2((150 - product_lift(bits, max)) as nat)
    }
}

/// The exact product of the magnitude of a finite pattern and `max`, without
/// its fractional part.
pub open spec fn exact_floor(bits: u32, max: u8) -> nat {
    if lift(bits) >= 150 {
        significand(bits) * (max as nat) * pow2((lift(bits) - 150) as nat)
    } else {
        (significand(bits) * (max as nat)) / pow2((150 - lift(bits)) as nat)
    }
}

/// The exact product of the magnitude of a finite pattern and `max`, rounded
/// up to an integer.
pub open spec fn exact_ceiling(bits: u32, max: u8) -> nat {
    if lift(bits) >= 150 {
        significand(bits) * (max as nat) * pow2((lift(bits) - 150) as nat)
    } else {
        ((significand(bits) * (max as nat) + pow2((150 - lift(bits)) as nat) - 1) / (pow2(
            (150 - lift(bits)) as nat,
        ) as int)) as nat
    }
}

/// The channel value for the number with pattern `bits` on a channel whose
/// largest value is `max`: zero for a NaN and for anything negative, `max`
/// for anything whose product with `max` reaches it, and otherwise that
/// product without its fractional part.
pub open spec fn channel_value_spec(bits: u32, max: u8) -> u8 {
    if sign_bit(bits) || is_nan(bits) {
        0
    } else if is_infinite(bits) {
        max
    } else if floor_scaled(bits, max) >= max {
        max
    } else {
        floor_scaled(bits, max) as u8
    }
}

/// Narrows an integer with `ToPrimitive::to_u8` of num-traits, which gives
/// an unsigned integer back as a byte where it is at most 255, and nothing
/// where it is larger.
#[verifier::external_body]
fn narrow_to_byte(value: u64) -> (byte: Option<u8>)
    ensures
        byte == (if value <= 255 {
            Some(value as u8)
        } else {
            None::<u8>
        }),
{
    num_traits::ToPrimitive::to_u8(&value)
}

/// Rounds a product to twenty-four bits and tells how many bits were
/// dropped.
fn round_product(product: u64) -> (rounded: (u64, u32))
    requires
        product < 0x1_0000_0000,
    ensures
        rounded.1 == excess_bits(product as nat),
        rounded.0 == round_half_even(product as nat, rounded.1 as nat),
        rounded.0 <= 0x100_0000,
        rounded.0 >= product / 256,
{
    let drop: u32 = if product < 0x100_0000 {
        0
    } else if product < 0x200_0000 {
        1
    } else if product < 0x400_0000 {
        2
    } else if product < 0x800_0000 {
        3
    } else if product < 0x1000_0000 {
        4
    } else if product < 0x2000_0000 {
        5
    } else if product < 0x4000_0000 {
        6
    } else if product < 0x8000_0000 {
        7
    } else {
        8
    };
    let unit: u64 = 1u64 << drop;
    proof {
        lemma2_to64();
        vstd::bits::lemma_u64_shl_is_mul(1, drop as u64);
        assert(unit == pow2(drop as nat));
        assert(product < unit * 0x100_0000);
    }
    let quotient: u64 = product / unit;
    let rest: u64 = product % unit;
    let rounded: u64 = if 2 * rest > unit || (2 * rest == unit && quotient % 2 == 1) {
        quotient + 1
    } else {
        quotient
    };
    proof {
        assert(quotient < 0x100_0000) by (nonlinear_arith)
            requires
                quotient == product / unit,
                product < unit * 0x100_0000,
                unit > 0,
        ;
        vstd::arithmetic::div_mod::lemma_div_is_ordered_by_denominator(
            product as int,
            unit as int,
            256,
        );
    }
    (rounded, drop)
}

/// Computes the channel value for the number with pattern `bits`.
pub fn channel_value(bits: u32, max: u8) -> (v: u8)
    ensures
        v == channel_value_spec(bits, max),
        v <= max,
{
    if bits >= 0x8000_0000 {
        return 0;
    }
    let e: u32 = (bits / 0x80_0000) % 256;
    let frac: u32 = bits % 0x80_0000;
    if e == 255 {
        return if frac != 0 { 0 } else { max };
    }
    let m: u64 = if e == 0 { frac as u64 } else { frac as u64 + 0x80_0000 };
    let base: u32 = if e == 0 { 1 } else { e };
    assert(m * max < 0x1_0000_0000) by (nonlinear_arith)
        requires
            m < 0x100_0000,
            max <= 255,
    ;
    let product: u64 = m * (max as u64);
    assert(product == significand(bits) * (max as nat));
    let (rounded, drop) = round_product(product);
    let up: u32 = base + drop;
    if up >= 150 {
        proof {
            let k = (up - 150) as nat;
            lemma_pow2_pos(k);
            assert(product >= 0x80_0000 * max) by (nonlinear_arith)
                requires
                    product == m * max,
                    m >= 0x80_0000,
            ;
            assert(rounded * pow2(k) >= max) by (nonlinear_arith)
                requires
                    rounded >= max,
                    pow2(k) >= 1,
            ;
        }
        max
    } else {
        let shift: u32 = 150 - up;
        if shift >= 32 {
            proof {
                lemma2_to64();
                if shift > 32 {
                    lemma_pow2_strictly_increases(32, shift as nat);
                }
                vstd::arithmetic::div_mod::lemma_basic_div(rounded as int, pow2(shift as nat) as int);
            }
            0
        } else {
            let quotient: u64 = rounded >> (shift as u64);
            proof {
                lemma_u64_shr_is_div(rounded, shift as u64);
            }
            match narrow_to_byte(quotient) {
                Some(byte) => if byte >= max {
                    max
                } else {
                    byte
                },
                None => max,
            }
        }
    }
}

/// The number one maps to the channel's maximum, whatever the maximum is.
pub proof fn lemma_one_gives_max(max: u8)
    ensures
        floor_scaled(ONE_BITS, max) == max,
        channel_value_spec(ONE_BITS, max) == max,
{
    lemma2_to64();
    assert(biased_exponent(ONE_BITS) == 127);
    assert(fraction(ONE_BITS) == 0);
    assert(significand(ONE_BITS) == 0x80_0000);
    let product = significand(ONE_BITS) * (max as nat);
    assert(product == 0x80_0000 * max);
    let drop = excess_bits(product);
    let unit = pow2(drop);
    let rest = pow2((23 - drop) as nat);
    let quotient: nat = rest * (max as nat);
    lemma_pow2_pos(drop);
    lemma_pow2_pos((23 - drop) as nat);
    lemma_pow2_adds((23 - drop) as nat, drop);
    assert(product == quotient * unit) by (nonlinear_arith)
        requires
            product == 0x80_0000 * max,
            0x80_0000 == rest * unit,
            quotient == rest * max,
    ;
    vstd::arithmetic::div_mod::lemma_div_by_multiple(quotient as int, unit as int);
    vstd::arithmetic::div_mod::lemma_mod_multiples_basic(quotient as int, unit as int);
    assert(product / unit == quotient);
    assert(product % unit == 0);
    assert(round_half_even(product, drop) == quotient);
    assert(product_lift(ONE_BITS, max) == 127 + drop);
    assert(quotient == max * rest) by (nonlinear_arith)
        requires
            quotient == rest * max,
    ;
    vstd::arithmetic::div_mod::lemma_div_by_multiple(max as int, rest as int);
    assert(quotient / rest == max);
}

/// Zero maps to zero.
pub proof fn lemma_zero_gives_zero(max: u8)
    ensures
        channel_value_spec(0, max) == 0,
{
    lemma2_to64();
    assert(significand(0) == 0);
    assert(0 * (max as nat) == 0);
    assert(round_half_even(0, 0) == 0);
    lemma_pow2_pos(149);
}

/// Within the unit interval nothing is clamped: for a number from zero to one
/// the channel value is the truncated product itself.
pub proof fn lemma_unit_interval_unclamped(bits: u32, max: u8)
    requires
        bits <= ONE_BITS,
    ensures
        floor_scaled(bits, max) <= max,
        channel_value_spec(bits, max) == floor_scaled(bits, max),
{
    lemma2_to64();
    if bits == ONE_BITS {
        lemma_one_gives_max(max);
    } else {
        let m = significand(bits);
        let base = lift(bits);
        assert(base <= 126);
        assert(m < 0x100_0000);
        let product = m * (max as nat);
        let drop = excess_bits(product);
        let unit = pow2(drop);
        let shift = (150 - base - drop) as nat;
        let room = pow2((150 - base) as nat);
        let bound = max * pow2(shift);
        lemma_pow2_pos(drop);
        lemma_pow2_pos(shift);
        lemma_pow2_adds(shift, drop);
        assert(room == pow2(shift) * unit);
        if 150 - base > 24 {
            lemma_pow2_strictly_increases(24, (150 - base) as nat);
        }
        assert(m < room);
        assert(product <= bound * unit) by (nonlinear_arith)
            requires
                product == m * max,
                m < room,
                room == pow2(shift) * unit,
                bound == max * pow2(shift),
        ;
        let quotient = product / unit;
        let rest = product % unit;
        vstd::arithmetic::div_mod::lemma_fundamental_div_mod(product as int, unit as int);
        assert(0 <= rest < unit);
        assert(quotient <= bound && (quotient == bound ==> rest == 0)) by (nonlinear_arith)
            requires
                product == unit * quotient + rest,
                0 <= rest < unit,
                product <= bound * unit,
        ;
        let rounded = round_half_even(product, drop);
        assert(rounded <= bound);
        vstd::arithmetic::div_mod::lemma_div_is_ordered(
            rounded as int,
            bound as int,
            pow2(shift) as int,
        );
        vstd::arithmetic::div_mod::lemma_div_by_multiple(max as int, pow2(shift) as int);
        assert(product_lift(bits, max) == base + drop);
    }
}

/// Rounding keeps a product on its side of every multiple of the unit.
proof fn lemma_round_between(product: nat, drop: nat, bound: nat)
    ensures
        bound * pow2(drop) <= product ==> bound <= round_half_even(product, drop),
        product <= bound * pow2(drop) ==> round_half_even(product, drop) <= bound,
{
    let unit = pow2(drop);
    lemma_pow2_pos(drop);
    let quotient = product / unit;
    let rest = product % unit;
    vstd::arithmetic::div_mod::lemma_fundamental_div_mod(product as int, unit as int);
    assert(0 <= rest < unit);
    assert(bound * unit <= product ==> bound <= quotient) by (nonlinear_arith)
        requires
            product == unit * quotient + rest,
            0 <= rest < unit,
    ;
    assert(product <= bound * unit ==> (quotient <= bound && (quotient == bound ==> rest == 0)))
        by (nonlinear_arith)
        requires
            product == unit * quotient + rest,
            0 <= rest < unit,
    ;
}

/// Rounding to the same unit keeps the order of two products.
proof fn lemma_round_ordered(low: nat, high: nat, drop: nat)
    requires
        low <= high,
    ensures
        round_half_even(low, drop) <= round_half_even(high, drop),
{
    let unit = pow2(drop);
    lemma_pow2_pos(drop);
    vstd::arithmetic::div_mod::lemma_fundamental_div_mod(low as int, unit as int);
    vstd::arithmetic::div_mod::lemma_fundamental_div_mod(high as int, unit as int);
    vstd::arithmetic::div_mod::lemma_div_is_ordered(low as int, high as int, unit as int);
    assert(0 <= low % unit < unit);
    assert(0 <= high % unit < unit);
    if low / unit == high / unit {
        assert(low % unit <= high % unit);
    }
}

/// Between which powers of two a product lies.
proof fn lemma_excess_brackets(product: nat)
    requires
        product < 0x1_0000_0000,
    ensures
        excess_bits(product) <= 8,
        product < pow2(24 + excess_bits(product)),
        excess_bits(product) >= 1 ==> pow2(23 + excess_bits(product)) <= product,
{
    lemma2_to64();
    let drop = excess_bits(product);
    if drop == 0 {
        assert(pow2(24 + drop) == pow2(24));
    } else if drop == 1 {
        assert(pow2(24 + drop) == pow2(25) && pow2(23 + drop) == pow2(24));
    } else if drop == 2 {
        assert(pow2(24 + drop) == pow2(26) && pow2(23 + drop) == pow2(25));
    } else if drop == 3 {
        assert(pow2(24 + drop) == pow2(27) && pow2(23 + drop) == pow2(26));
    } else if drop == 4 {
        assert(pow2(24 + drop) == pow2(28) && pow2(23 + drop) == pow2(27));
    } else if drop == 5 {
        assert(pow2(24 + drop) == pow2(29) && pow2(23 + drop) == pow2(28));
    } else if drop == 6 {
        assert(pow2(24 + drop) == pow2(30) && pow2(23 + drop) == pow2(29));
    } else if drop == 7 {
        assert(pow2(24 + drop) == pow2(31) && pow2(23 + drop) == pow2(30));
    } else {
        assert(pow2(24 + drop) == pow2(32) && pow2(23 + drop) == pow2(31));
    }
}

/// Below the point where truncation stops mattering, the channel value is
/// the rounded product, counted in units of `2^(lift(bits) - 150)`, divided
/// by the number of such units in one.
proof fn lemma_scaled_as_units(bits: u32, max: u8)
    requires
        product_lift(bits, max) < 150,
    ensures
        floor_scaled(bits, max) == (pow2(excess_bits(significand(bits) * (max as nat)))
            * rounded_product(bits, max)) / pow2((150 - lift(bits)) as nat),
{
    let drop = excess_bits(significand(bits) * (max as nat));
    let unit = pow2(drop);
    let shift = (150 - lift(bits) - drop) as nat;
    let rounded = rounded_product(bits, max);
    lemma_pow2_pos(drop);
    lemma_pow2_pos(shift);
    lemma_pow2_adds(drop, shift);
    assert(pow2((150 - lift(bits)) as nat) == unit * pow2(shift));
    vstd::arithmetic::div_mod::lemma_div_multiples_vanish_quotient(
        unit as int,
        rounded as int,
        pow2(shift) as int,
    );
}

/// Within the unit interval the channel value lies between the exact
/// product without its fractional part and the exact product rounded up:
/// rounding the product to single precision never moves it across an
/// integer.
pub proof fn lemma_unit_interval_between(bits: u32, max: u8)
    requires
        bits <= ONE_BITS,
    ensures
        exact_floor(bits, max) <= channel_value_spec(bits, max) <= exact_ceiling(bits, max),
{
    lemma2_to64();
    lemma_unit_interval_unclamped(bits, max);
    let m = significand(bits);
    let base = lift(bits);
    assert(base <= 127);
    assert(m < 0x100_0000);
    let product = m * (max as nat);
    assert(product < 0x1_0000_0000) by (nonlinear_arith)
        requires
            product == m * (max as nat),
            m < 0x100_0000,
            max <= 255,
    ;
    let drop = excess_bits(product);
    let unit = pow2(drop);
    let shift = (150 - base - drop) as nat;
    let step = pow2(shift);
    let whole = pow2((150 - base) as nat);
    lemma_pow2_pos(drop);
    lemma_pow2_pos(shift);
    lemma_pow2_adds(drop, shift);
    assert(whole == unit * step);
    let rounded = round_half_even(product, drop);
    assert(product_lift(bits, max) == base + drop);
    assert(floor_scaled(bits, max) == rounded / step);
    // from below
    assert(product / unit <= rounded);
    vstd::arithmetic::div_mod::lemma_div_denominator(product as int, unit as int, step as int);
    vstd::arithmetic::div_mod::lemma_div_is_ordered(
        (product / unit) as int,
        rounded as int,
        step as int,
    );
    assert(product / whole <= rounded / step);
    // from above
    let ceiling = (product + whole - 1) / (whole as int);
    vstd::arithmetic::div_mod::lemma_fundamental_div_mod(product + whole - 1, whole as int);
    assert(0 <= (product + whole - 1) % (whole as int) < whole);
    vstd::arithmetic::div_mod::lemma_div_pos_is_pos(product + whole - 1, whole as int);
    assert(product <= (ceiling * step) * unit) by (nonlinear_arith)
        requires
            product + whole - 1 == whole * ceiling + (product + whole - 1) % (whole as int),
            (product + whole - 1) % (whole as int) < whole,
            whole == unit * step,
    ;
    lemma_round_between(product, drop, (ceiling * step) as nat);
    assert(ceiling * step >= 0) by (nonlinear_arith)
        requires
            ceiling >= 0,
            step >= 0,
    ;
    assert(rounded <= ceiling * step);
    vstd::arithmetic::div_mod::lemma_div_is_ordered(
        rounded as int,
        ceiling * step,
        step as int,
    );
    vstd::arithmetic::div_mod::lemma_div_by_multiple(ceiling, step as int);
    assert(rounded / step <= ceiling);
}

/// Within the unit interval the channel value does not fall when the number
/// grows.
pub proof fn lemma_unit_interval_ordered(low: u32, high: u32, max: u8)
    requires
        low <= high <= ONE_BITS,
    ensures
        channel_value_spec(low, max) <= channel_value_spec(high, max),
{
    lemma2_to64();
    lemma_unit_interval_unclamped(low, max);
    lemma_unit_interval_unclamped(high, max);
    if high == ONE_BITS {
        lemma_one_gives_max(max);
    } else {
        let lift_low = lift(low);
        let lift_high = lift(high);
        let mant_low = significand(low);
        let mant_high = significand(high);
        assert(lift_low <= lift_high <= 126);
        assert(mant_low < 0x100_0000 && mant_high < 0x100_0000);
        assert(lift_low == lift_high ==> mant_low <= mant_high);
        assert(lift_low < lift_high ==> mant_high >= 0x80_0000);
        let prod_low = mant_low * (max as nat);
        let prod_high = mant_high * (max as nat);
        assert(prod_low < 0x1_0000_0000 && prod_high < 0x1_0000_0000) by (nonlinear_arith)
            requires
                prod_low == mant_low * (max as nat),
                prod_high == mant_high * (max as nat),
                mant_low < 0x100_0000,
                mant_high < 0x100_0000,
                max <= 255,
        ;
        let drop_low = excess_bits(prod_low);
        let drop_high = excess_bits(prod_high);
        let unit_low = pow2(drop_low);
        let unit_high = pow2(drop_high);
        let round_low = round_half_even(prod_low, drop_low);
        let round_high = round_half_even(prod_high, drop_high);
        let units_low = unit_low * round_low;
        let units_high = unit_high * round_high;
        let whole_low = pow2((150 - lift_low) as nat);
        let whole_high = pow2((150 - lift_high) as nat);
        lemma_excess_brackets(prod_low);
        lemma_excess_brackets(prod_high);
        lemma_pow2_pos(drop_low);
        lemma_pow2_pos(drop_high);
        lemma_pow2_pos((150 - lift_low) as nat);
        lemma_pow2_pos((150 - lift_high) as nat);
        lemma_scaled_as_units(low, max);
        lemma_scaled_as_units(high, max);
        assert(floor_scaled(low, max) == units_low / whole_low);
        assert(floor_scaled(high, max) == units_high / whole_high);
        if lift_low == lift_high {
            assert(prod_low <= prod_high) by (nonlinear_arith)
                requires
                    prod_low == mant_low * (max as nat),
                    prod_high == mant_high * (max as nat),
                    mant_low <= mant_high,
            ;
            assert(drop_low <= drop_high);
            if drop_low == drop_high {
                lemma_round_ordered(prod_low, prod_high, drop_low);
                assert(units_low <= units_high) by (nonlinear_arith)
                    requires
                        units_low == unit_low * round_low,
                        units_high == unit_low * round_high,
                        round_low <= round_high,
                ;
            } else {
                let top = pow2(24 + drop_low);
                let bound_low = pow2(24);
                let bound_high = pow2((24 + drop_low - drop_high) as nat);
                lemma_pow2_adds(24, drop_low);
                lemma_pow2_adds((24 + drop_low - drop_high) as nat, drop_high);
                assert(top == bound_low * unit_low);
                assert(top == bound_high * unit_high);
                if 23 + drop_high > 24 + drop_low {
                    lemma_pow2_strictly_increases(24 + drop_low, 23 + drop_high);
                }
                assert(top <= prod_high);
                lemma_round_between(prod_low, drop_low, bound_low);
                lemma_round_between(prod_high, drop_high, bound_high);
                assert(round_low <= bound_low);
                assert(bound_high <= round_high);
                assert(units_low <= top && top <= units_high) by (nonlinear_arith)
                    requires
                        units_low == unit_low * round_low,
                        units_high == unit_high * round_high,
                        top == bound_low * unit_low,
                        top == bound_high * unit_high,
                        round_low <= bound_low,
                        bound_high <= round_high,
                ;
            }
            vstd::arithmetic::div_mod::lemma_div_is_ordered(units_low as int, units_high as int, whole_low as int);
        } else {
            let gap = (lift_high - lift_low) as nat;
            let grow = pow2(gap);
            let bound_low = pow2((24 - drop_low) as nat) * (max as nat);
            let bound_high = pow2((23 - drop_high) as nat) * (max as nat);
            lemma_pow2_adds((24 - drop_low) as nat, drop_low);
            lemma_pow2_adds((23 - drop_high) as nat, drop_high);
            assert(prod_low <= bound_low * unit_low) by (nonlinear_arith)
                requires
                    prod_low == mant_low * (max as nat),
                    mant_low < 0x100_0000,
                    0x100_0000 == pow2((24 - drop_low) as nat) * unit_low,
                    bound_low == pow2((24 - drop_low) as nat) * (max as nat),
            ;
            assert(bound_high * unit_high <= prod_high) by (nonlinear_arith)
                requires
                    prod_high == mant_high * (max as nat),
                    mant_high >= 0x80_0000,
                    0x80_0000 == pow2((23 - drop_high) as nat) * unit_high,
                    bound_high == pow2((23 - drop_high) as nat) * (max as nat),
            ;
            lemma_round_between(prod_low, drop_low, bound_low);
            lemma_round_between(prod_high, drop_high, bound_high);
            assert(round_low <= bound_low);
            assert(bound_high <= round_high);
            assert(units_low <= 0x100_0000 * max) by (nonlinear_arith)
                requires
                    units_low == unit_low * round_low,
                    round_low <= bound_low,
                    0x100_0000 == pow2((24 - drop_low) as nat) * unit_low,
                    bound_low == pow2((24 - drop_low) as nat) * (max as nat),
            ;
            assert(units_high >= 0x80_0000 * max) by (nonlinear_arith)
                requires
                    units_high == unit_high * round_high,
                    bound_high <= round_high,
                    0x80_0000 == pow2((23 - drop_high) as nat) * unit_high,
                    bound_high == pow2((23 - drop_high) as nat) * (max as nat),
            ;
            if gap > 1 {
                lemma_pow2_strictly_increases(1, gap);
            }
            assert(grow >= 2);
            lemma_pow2_adds(gap, (150 - lift_high) as nat);
            assert(whole_low == grow * whole_high);
            assert(units_low <= grow * units_high) by (nonlinear_arith)
                requires
                    units_low <= 0x100_0000 * max,
                    units_high >= 0x80_0000 * max,
                    grow >= 2,
            ;
            vstd::arithmetic::div_mod::lemma_div_is_ordered(
                units_low as int,
                (grow * units_high) as int,
                whole_low as int,
            );
            vstd::arithmetic::div_mod::lemma_div_multiples_vanish_quotient(
                grow as int,
                units_high as int,
                whole_high as int,
            );
        }
    }
}

} // verus!
