use raytracer::binary32::{less_than, split, to_byte, INFINITY, SIGN};

fn specimens() -> Vec<f32> {
    let mut values = vec![
        0.0,
        -0.0,
        1.0,
        -1.0,
        0.5,
        -0.5,
        0.999_999_94,
        1.000_000_1,
        2.0,
        3.0,
        9.0,
        16.0,
        49.0,
        96.0,
        -96.0,
        127.5,
        254.0,
        254.999_98,
        255.0,
        255.5,
        256.0,
        257.0,
        1.0e10,
        -1.0e10,
        1.0e-10,
        -1.0e-10,
        f32::MIN_POSITIVE,
        f32::MIN_POSITIVE / 4.0,
        -f32::MIN_POSITIVE / 4.0,
        f32::MAX,
        f32::MIN,
        f32::EPSILON,
        f32::INFINITY,
        f32::NEG_INFINITY,
        f32::NAN,
        -f32::NAN,
        f32::from_bits(0x7f80_0001),
        f32::from_bits(0xffff_ffff),
        f32::from_bits(0x0000_0001),
        f32::from_bits(0x8000_0001),
    ];
    let mut x = 0.015_625_f32;
    while x < 1024.0 {
        values.push(x);
        values.push(-x);
        values.push(x * 1.37);
        x *= 2.0;
    }
    values
}

#[test]
fn less_than_is_the_order_of_the_numbers() {
    let values = specimens();
    for a in &values {
        for b in &values {
            assert_eq!(less_than(a.to_bits(), b.to_bits()), a < b, "{:?} < {:?}", a, b);
        }
    }
}

#[test]
fn less_than_holds_the_two_zeros_equal() {
    let plus = 0.0_f32.to_bits();
    let minus = (-0.0_f32).to_bits();
    assert_ne!(plus, minus);
    assert!(!less_than(minus, plus));
    assert!(!less_than(plus, minus));
    assert!(less_than((-1.0_f32).to_bits(), minus));
    assert!(less_than(plus, f32::MIN_POSITIVE.to_bits()));
}

#[test]
fn less_than_is_false_beside_a_nan() {
    let nan = f32::NAN.to_bits();
    for x in specimens() {
        assert!(!less_than(nan, x.to_bits()));
        assert!(!less_than(x.to_bits(), nan));
    }
}

#[test]
fn less_than_is_a_strict_order() {
    let values = specimens();
    for a in &values {
        assert!(!less_than(a.to_bits(), a.to_bits()));
        for b in &values {
            if less_than(a.to_bits(), b.to_bits()) {
                assert!(!less_than(b.to_bits(), a.to_bits()));
                for c in &values {
                    if less_than(b.to_bits(), c.to_bits()) {
                        assert!(less_than(a.to_bits(), c.to_bits()));
                    }
                }
            }
        }
    }
}

#[test]
fn split_parts_sign_and_magnitude() {
    assert_eq!(split(0), (false, 0));
    assert_eq!(split(SIGN), (true, 0));
    assert_eq!(split(INFINITY), (false, INFINITY));
    assert_eq!(split(f32::NEG_INFINITY.to_bits()), (true, INFINITY));
    assert_eq!(split((-2.5_f32).to_bits()), (true, 2.5_f32.to_bits()));
    assert_eq!(split(0xffff_ffff), (true, 0x7fff_ffff));
}

#[test]
fn to_byte_is_the_saturating_cast() {
    for x in specimens() {
        assert_eq!(to_byte(x.to_bits()), x as u8, "{:?}", x);
    }
}

#[test]
fn to_byte_agrees_with_the_cast_across_the_range() {
    let mut x = -4.0_f32;
    while x < 300.0 {
        assert_eq!(to_byte(x.to_bits()), x as u8, "{:?}", x);
        x += 0.031_25;
    }
}

#[test]
fn to_byte_agrees_with_the_cast_on_scattered_patterns() {
    let mut bits: u32 = 0x1234_5678;
    for _ in 0..200_000 {
        bits = bits.wrapping_mul(1_664_525).wrapping_add(1_013_904_223);
        assert_eq!(to_byte(bits), f32::from_bits(bits) as u8, "{:#010x}", bits);
    }
}

#[test]
fn to_byte_rounds_towards_zero() {
    assert_eq!(to_byte(0.0_f32.to_bits()), 0);
    assert_eq!(to_byte(0.999_f32.to_bits()), 0);
    assert_eq!(to_byte(1.0_f32.to_bits()), 1);
    assert_eq!(to_byte(1.999_f32.to_bits()), 1);
    assert_eq!(to_byte(2.0_f32.to_bits()), 2);
    assert_eq!(to_byte(127.999_f32.to_bits()), 127);
    assert_eq!(to_byte(128.0_f32.to_bits()), 128);
    assert_eq!(to_byte(248.625_f32.to_bits()), 248);
    assert_eq!(to_byte(254.999_f32.to_bits()), 254);
    assert_eq!(to_byte(255.0_f32.to_bits()), 255);
}

#[test]
fn to_byte_never_wraps() {
    assert_eq!(to_byte(255.999_f32.to_bits()), 255);
    assert_eq!(to_byte(256.0_f32.to_bits()), 255);
    assert_eq!(to_byte(257.0_f32.to_bits()), 255);
    assert_eq!(to_byte(331.5_f32.to_bits()), 255);
    assert_eq!(to_byte(511.0_f32.to_bits()), 255);
    assert_eq!(to_byte(f32::MAX.to_bits()), 255);
    assert_eq!(to_byte(f32::INFINITY.to_bits()), 255);
    assert_eq!(to_byte((-0.0_f32).to_bits()), 0);
    assert_eq!(to_byte((-0.5_f32).to_bits()), 0);
    assert_eq!(to_byte((-1.0_f32).to_bits()), 0);
    assert_eq!(to_byte((-300.0_f32).to_bits()), 0);
    assert_eq!(to_byte(f32::NEG_INFINITY.to_bits()), 0);
}

#[test]
fn to_byte_of_a_nan_is_zero() {
    assert_eq!(to_byte(f32::NAN.to_bits()), 0);
    assert_eq!(to_byte((-f32::NAN).to_bits()), 0);
    assert_eq!(to_byte(0x7f80_0001), 0);
    assert_eq!(to_byte(0x7fff_ffff), 0);
    assert_eq!(to_byte(0xff80_0001), 0);
    assert_eq!(to_byte(0xffff_ffff), 0);
}

#[test]
fn to_byte_is_monotone() {
    let mut values: Vec<f32> = specimens().into_iter().filter(|x| !x.is_nan()).collect();
    values.sort_by(|a, b| a.partial_cmp(b).unwrap());
    for pair in values.windows(2) {
        assert!(to_byte(pair[0].to_bits()) <= to_byte(pair[1].to_bits()));
    }
}
