use yongnuo_osc_server::scale::{channel_value, ONE_BITS};

fn by_float(number: f32, max: u8) -> u8 {
    let product = number * f32::from(max);
    if product.is_nan() || product <= 0.0 {
        0
    } else if product >= f32::from(max) {
        max
    } else {
        product.trunc() as u8
    }
}

#[test]
fn one_gives_the_maximum() {
    assert_eq!(ONE_BITS, 1.0f32.to_bits());
    assert_eq!(channel_value(1.0f32.to_bits(), 255), 255);
    assert_eq!(channel_value(1.0f32.to_bits(), 99), 99);
}

#[test]
fn zero_gives_zero() {
    assert_eq!(channel_value(0.0f32.to_bits(), 255), 0);
    assert_eq!(channel_value((-0.0f32).to_bits(), 255), 0);
    assert_eq!(channel_value(0.0f32.to_bits(), 99), 0);
}

#[test]
fn half_is_truncated() {
    assert_eq!(channel_value(0.5f32.to_bits(), 255), 127);
    assert_eq!(channel_value(0.5f32.to_bits(), 99), 49);
}

#[test]
fn quarter_and_three_quarters() {
    assert_eq!(channel_value(0.25f32.to_bits(), 255), 63);
    assert_eq!(channel_value(0.75f32.to_bits(), 255), 191);
    assert_eq!(channel_value(0.25f32.to_bits(), 99), 24);
    assert_eq!(channel_value(0.75f32.to_bits(), 99), 74);
}

#[test]
fn just_below_one_stays_below_the_maximum() {
    let below = f32::from_bits(ONE_BITS - 1);
    assert_eq!(channel_value(below.to_bits(), 255), 254);
    assert_eq!(channel_value(below.to_bits(), 99), 98);
}

#[test]
fn above_one_is_clamped() {
    assert_eq!(channel_value(2.0f32.to_bits(), 255), 255);
    assert_eq!(channel_value(1.5f32.to_bits(), 99), 99);
    assert_eq!(channel_value(f32::MAX.to_bits(), 255), 255);
    assert_eq!(channel_value(f32::INFINITY.to_bits(), 99), 99);
    assert_eq!(channel_value(1.0e20f32.to_bits(), 255), 255);
}

#[test]
fn negative_is_clamped_to_zero() {
    assert_eq!(channel_value((-1.0f32).to_bits(), 255), 0);
    assert_eq!(channel_value((-0.5f32).to_bits(), 99), 0);
    assert_eq!(channel_value(f32::NEG_INFINITY.to_bits(), 255), 0);
}

#[test]
fn nan_counts_as_zero() {
    assert_eq!(channel_value(f32::NAN.to_bits(), 255), 0);
    assert_eq!(channel_value(0x7f80_0001, 99), 0);
    assert_eq!(channel_value(0xffc0_0000, 255), 0);
}

#[test]
fn tiny_numbers_give_zero() {
    assert_eq!(channel_value(1, 255), 0);
    assert_eq!(channel_value(f32::MIN_POSITIVE.to_bits(), 255), 0);
    assert_eq!(channel_value(1.0e-10f32.to_bits(), 99), 0);
    assert_eq!(channel_value(0.003f32.to_bits(), 255), 0);
    assert_eq!(channel_value(0.004f32.to_bits(), 255), 1);
}

#[test]
fn zero_maximum_gives_zero() {
    assert_eq!(channel_value(1.0f32.to_bits(), 0), 0);
    assert_eq!(channel_value(0.5f32.to_bits(), 0), 0);
}

#[test]
fn agrees_with_float_product_on_a_sweep() {
    for step in 0..=4000u32 {
        let number = step as f32 / 2000.0 - 0.25;
        assert_eq!(channel_value(number.to_bits(), 255), by_float(number, 255), "{}", number);
        assert_eq!(channel_value(number.to_bits(), 99), by_float(number, 99), "{}", number);
    }
}

#[test]
fn agrees_with_float_product_across_exponents() {
    let mut bits: u32 = 0;
    while bits < 0x7f80_0000 {
        let number = f32::from_bits(bits);
        assert_eq!(channel_value(bits, 255), by_float(number, 255), "{:#x}", bits);
        assert_eq!(channel_value(bits, 99), by_float(number, 99), "{:#x}", bits);
        bits += 0x0003_1415;
    }
}

#[test]
fn result_never_exceeds_the_maximum() {
    let mut bits: u32 = 0;
    loop {
        assert!(channel_value(bits, 99) <= 99);
        match bits.checked_add(0x0100_0001) {
            Some(next) => bits = next,
            None => break,
        }
    }
}

#[test]
fn fractions_of_the_maximum_come_back() {
    for step in 0..=255u8 {
        let number = f32::from(step) / 255.0;
        assert_eq!(channel_value(number.to_bits(), 255), by_float(number, 255), "{}", step);
    }
    for step in 0..=99u8 {
        let number = f32::from(step) / 99.0;
        assert_eq!(channel_value(number.to_bits(), 99), by_float(number, 99), "{}", step);
    }
    assert_eq!(channel_value((1.0f32 / 99.0).to_bits(), 99), 1);
    assert_eq!(channel_value((2.0f32 / 99.0).to_bits(), 99), 2);
    assert_eq!(channel_value((8.0f32 / 99.0).to_bits(), 99), 8);
}

#[test]
fn product_is_rounded_before_it_is_truncated() {
    // 0x3c257eb5 times 99 lies just below one and rounds to one in single precision.
    let number = 1.0f32 / 99.0;
    assert!(f64::from(number) * 99.0 < 1.0);
    assert_eq!(number * 99.0, 1.0);
    assert_eq!(channel_value(number.to_bits(), 99), 1);
}

#[test]
fn agrees_with_float_product_near_every_step() {
    for step in 1..=255u32 {
        let centre = (step as f32 / 255.0).to_bits();
        for bits in (centre - 40)..=(centre + 40) {
            let number = f32::from_bits(bits);
            assert_eq!(channel_value(bits, 255), by_float(number, 255), "{:#x}", bits);
            assert_eq!(channel_value(bits, 99), by_float(number, 99), "{:#x}", bits);
        }
    }
}

#[test]
fn value_does_not_fall_as_the_number_grows() {
    for max in [255u8, 99, 1, 7] {
        let mut last = 0u8;
        let mut bits: u32 = 0;
        while bits <= ONE_BITS {
            let value = channel_value(bits, max);
            assert!(last <= value, "{:#x}", bits);
            last = value;
            bits += 0x0000_0fff;
        }
        assert_eq!(channel_value(ONE_BITS, max), max);
    }
}

#[test]
fn value_lies_between_floor_and_ceiling_of_the_exact_product() {
    let mut bits: u32 = 0;
    while bits <= ONE_BITS {
        for max in [255u8, 99] {
            let exact = f64::from(f32::from_bits(bits)) * f64::from(max);
            let value = f64::from(channel_value(bits, max));
            assert!(exact.floor() <= value && value <= exact.ceil(), "{:#x}", bits);
        }
        bits += 0x0000_0d3b;
    }
}
