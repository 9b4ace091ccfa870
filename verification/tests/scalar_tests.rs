use raytracer::scalar::Scalar;

fn s(x: f64) -> Scalar {
    Scalar::from_bits(x.to_bits())
}

fn samples() -> Vec<f64> {
    vec![
        0.0,
        -0.0,
        5e-324,
        -5e-324,
        2.2250738585072009e-308,
        f64::MIN_POSITIVE,
        -f64::MIN_POSITIVE,
        0.001,
        0.5,
        0.9999999999999999,
        1.0,
        1.0000000000000002,
        -1.0,
        2.0,
        3.5,
        -3.5,
        255.99,
        1e50,
        -1e50,
        f64::MAX,
        f64::MIN,
        f64::INFINITY,
        f64::NEG_INFINITY,
        f64::NAN,
        -f64::NAN,
        f64::from_bits(0x7ff0_0000_0000_0001),
        f64::from_bits(0xffff_ffff_ffff_ffff),
    ]
}

#[test]
fn comparisons_agree_with_the_hardware() {
    for &a in samples().iter() {
        for &b in samples().iter() {
            assert_eq!(s(a).lt(s(b)), a < b, "{:?} < {:?}", a, b);
            assert_eq!(s(a).le(s(b)), a <= b, "{:?} <= {:?}", a, b);
            assert_eq!(s(a).gt(s(b)), a > b, "{:?} > {:?}", a, b);
            assert_eq!(s(a).ge(s(b)), a >= b, "{:?} >= {:?}", a, b);
            assert_eq!(s(a).equals(s(b)), a == b, "{:?} == {:?}", a, b);
        }
    }
}

#[test]
fn classification_agrees_with_the_hardware() {
    for &a in samples().iter() {
        assert_eq!(s(a).is_nan(), a.is_nan(), "{:?}", a);
        assert_eq!(s(a).is_positive(), a > 0.0, "{:?}", a);
    }
}

#[test]
fn truncation_agrees_with_the_cast() {
    let more: Vec<f64> = vec![
        0.99,
        1.5,
        -1.5,
        -0.99,
        181.01,
        214.17,
        255.0,
        256.0,
        65535.9,
        1048576.25,
        2147483646.5,
        2147483647.0,
        2147483647.5,
        2147483648.0,
        2147483649.0,
        -2147483647.5,
        -2147483648.0,
        -2147483648.5,
        -2147483649.0,
        4294967296.0,
        9007199254740992.0,
    ];
    for &a in samples().iter().chain(more.iter()) {
        assert_eq!(s(a).to_i32(), a as i32, "{:?}", a);
    }
}

#[test]
fn truncation_of_known_values() {
    assert_eq!(s(0.0).to_i32(), 0);
    assert_eq!(s(0.999).to_i32(), 0);
    assert_eq!(s(1.0).to_i32(), 1);
    assert_eq!(s(255.99).to_i32(), 255);
    assert_eq!(s(-2.75).to_i32(), -2);
    assert_eq!(s(1e50).to_i32(), i32::MAX);
    assert_eq!(s(-1e50).to_i32(), i32::MIN);
    assert_eq!(s(f64::INFINITY).to_i32(), i32::MAX);
    assert_eq!(s(f64::NEG_INFINITY).to_i32(), i32::MIN);
    assert_eq!(s(f64::NAN).to_i32(), 0);
}

#[test]
fn integers_convert_exactly() {
    let ns: Vec<i32> = vec![
        0,
        1,
        -1,
        2,
        3,
        7,
        50,
        100,
        199,
        255,
        256,
        1000000,
        -1000000,
        16777217,
        i32::MAX,
        i32::MAX - 1,
        i32::MIN,
        i32::MIN + 1,
    ];
    for &n in ns.iter() {
        assert_eq!(Scalar::from_i32(n).to_bits(), (n as f64).to_bits(), "{}", n);
        assert_eq!(Scalar::from_i32(n).to_i32(), n);
    }
}

#[test]
fn every_power_of_two_converts_exactly() {
    let mut n: i32 = 1;
    for _ in 0..31 {
        assert_eq!(Scalar::from_i32(n).to_bits(), (n as f64).to_bits());
        assert_eq!(Scalar::from_i32(-n).to_bits(), (-n as f64).to_bits());
        assert_eq!(Scalar::from_i32(n - 1).to_bits(), ((n - 1) as f64).to_bits());
        n = n.wrapping_mul(2);
    }
}

#[test]
fn zero_and_one() {
    assert_eq!(Scalar::zero().to_bits(), 0.0f64.to_bits());
    assert_eq!(Scalar::one().to_bits(), 1.0f64.to_bits());
    assert!(Scalar::zero().lt(Scalar::one()));
    assert!(!Scalar::one().lt(Scalar::zero()));
}

#[test]
fn the_two_zeros_are_equal() {
    assert!(s(0.0).equals(s(-0.0)));
    assert!(s(-0.0).le(s(0.0)));
    assert!(s(0.0).le(s(-0.0)));
    assert!(!s(-0.0).lt(s(0.0)));
    assert!(!s(0.0).is_positive());
    assert!(!s(-0.0).is_positive());
}

#[test]
fn what_is_not_a_number_is_unordered() {
    let nan = s(f64::NAN);
    assert!(nan.is_nan());
    assert!(!nan.lt(nan) && !nan.le(nan) && !nan.gt(nan) && !nan.ge(nan) && !nan.equals(nan));
    assert!(!nan.lt(s(1.0)) && !s(1.0).lt(nan));
    assert!(!nan.le(s(f64::INFINITY)) && !s(f64::NEG_INFINITY).le(nan));
}

#[test]
fn bits_pass_through_unchanged() {
    for &a in samples().iter() {
        assert_eq!(s(a).to_bits(), a.to_bits());
    }
}
