use raytrace::scalar::Scalar;

fn s(v: f32) -> Scalar {
    Scalar::from_bits(v.to_bits())
}

fn samples() -> Vec<f32> {
    vec![
        0.0,
        -0.0,
        1.0,
        -1.0,
        0.001,
        0.5,
        4.0,
        6.0,
        255.0,
        -1000.0,
        f32::MIN_POSITIVE,
        -f32::MIN_POSITIVE,
        f32::from_bits(1),
        f32::from_bits(0x8000_0001),
        f32::from_bits(0x007f_ffff),
        f32::MAX,
        f32::MIN,
        f32::INFINITY,
        f32::NEG_INFINITY,
        f32::NAN,
        f32::from_bits(0xffc0_0000),
        f32::from_bits(0x7f80_0001),
    ]
}

#[test]
fn bits_round_trip() {
    let x = Scalar::from_bits(0x3f80_0000);
    assert_eq!(x.to_bits(), 0x3f80_0000);
    assert_eq!(x.bits, 1.0f32.to_bits());
    assert_eq!(Scalar::zero().to_bits(), 0.0f32.to_bits());
}

#[test]
fn less_than_agrees_with_hardware() {
    let all = samples();
    for &a in &all {
        for &b in &all {
            assert_eq!(s(a).lt(s(b)), a < b, "{} < {}", a, b);
        }
    }
}

#[test]
fn greater_than_agrees_with_hardware() {
    let all = samples();
    for &a in &all {
        for &b in &all {
            assert_eq!(s(a).gt(s(b)), a > b, "{} > {}", a, b);
        }
    }
}

#[test]
fn less_or_equal_agrees_with_hardware() {
    let all = samples();
    for &a in &all {
        for &b in &all {
            assert_eq!(s(a).le(s(b)), a <= b, "{} <= {}", a, b);
        }
    }
}

#[test]
fn order_agrees_with_hardware_on_a_sweep() {
    let mut a: u32 = 0;
    let mut b: u32 = 0x9e37_79b9;
    for _ in 0..200_000 {
        let x = f32::from_bits(a);
        let y = f32::from_bits(b);
        assert_eq!(Scalar::from_bits(a).lt(Scalar::from_bits(b)), x < y);
        assert_eq!(Scalar::from_bits(a).le(Scalar::from_bits(b)), x <= y);
        assert_eq!(Scalar::from_bits(a).gt(Scalar::from_bits(b)), x > y);
        a = a.wrapping_mul(1_664_525).wrapping_add(1_013_904_223);
        b = b.wrapping_mul(22_695_477).wrapping_add(1);
    }
}

#[test]
fn the_two_zeros_are_equal() {
    assert!(!s(-0.0).lt(s(0.0)));
    assert!(!s(0.0).lt(s(-0.0)));
    assert!(!s(0.0).gt(s(-0.0)));
}

#[test]
fn nothing_compares_with_nan() {
    let nan = s(f32::NAN);
    assert!(nan.is_nan());
    assert!(!s(1.0).is_nan());
    assert!(!s(f32::INFINITY).is_nan());
    assert!(!nan.lt(s(1.0)));
    assert!(!s(1.0).lt(nan));
    assert!(!nan.gt(s(1.0)));
    assert!(!nan.lt(nan));
}

#[test]
fn to_byte_exact_values() {
    assert_eq!(s(0.0).to_byte(), 0);
    assert_eq!(s(0.999).to_byte(), 0);
    assert_eq!(s(1.0).to_byte(), 1);
    assert_eq!(s(1.999).to_byte(), 1);
    assert_eq!(s(127.5).to_byte(), 127);
    assert_eq!(s(128.0).to_byte(), 128);
    assert_eq!(s(254.99).to_byte(), 254);
    assert_eq!(s(255.0).to_byte(), 255);
    assert_eq!(s(255.9).to_byte(), 255);
    assert_eq!(s(256.0).to_byte(), 255);
    assert_eq!(s(1.0e9).to_byte(), 255);
    assert_eq!(s(f32::INFINITY).to_byte(), 255);
    assert_eq!(s(-0.0).to_byte(), 0);
    assert_eq!(s(-0.5).to_byte(), 0);
    assert_eq!(s(-3.0).to_byte(), 0);
    assert_eq!(s(f32::NEG_INFINITY).to_byte(), 0);
    assert_eq!(s(f32::NAN).to_byte(), 0);
    assert_eq!(s(f32::from_bits(1)).to_byte(), 0);
}

#[test]
fn to_byte_agrees_with_the_cast() {
    for &x in &samples() {
        assert_eq!(s(x).to_byte(), x as u8, "{}", x);
    }
    let mut bits: u32 = 0;
    for _ in 0..400_000 {
        let x = f32::from_bits(bits);
        assert_eq!(Scalar::from_bits(bits).to_byte(), x as u8, "{}", x);
        bits = bits.wrapping_add(10_007);
    }
    let mut k: u32 = 0;
    while k < 3000 {
        let x = k as f32 / 10.0;
        assert_eq!(s(x).to_byte(), x as u8, "{}", x);
        k += 1;
    }
}
