use catune_solver::binary32;
use catune_solver::binary64;

fn singles() -> Vec<f32> {
    let mut v = vec![
        0.0_f32,
        -0.0,
        1.0,
        -1.0,
        0.5,
        -0.5,
        1e-6,
        -1e-6,
        3.25,
        -3.25,
        1e30,
        -1e30,
        f32::MIN_POSITIVE,
        -f32::MIN_POSITIVE,
        f32::from_bits(1),
        f32::from_bits(0x8000_0001),
        f32::MAX,
        f32::MIN,
        f32::INFINITY,
        f32::NEG_INFINITY,
        f32::NAN,
        -f32::NAN,
        f32::from_bits(0x7f80_0001),
        f32::from_bits(0xffff_ffff),
    ];
    // a fixed pseudo-random walk over the bit patterns
    let mut state: u32 = 0x1234_5678;
    for _ in 0..400 {
        state = state.wrapping_mul(1_664_525).wrapping_add(1_013_904_223);
        v.push(f32::from_bits(state));
    }
    v
}

fn doubles() -> Vec<f64> {
    let mut v = vec![
        0.0_f64,
        -0.0,
        1.0,
        -1.0,
        1e-6,
        1e-10,
        -1e-10,
        1e-20,
        2.5,
        -2.5,
        1e300,
        -1e300,
        f64::MIN_POSITIVE,
        f64::from_bits(1),
        f64::from_bits(0x8000_0000_0000_0001),
        f64::MAX,
        f64::MIN,
        f64::INFINITY,
        f64::NEG_INFINITY,
        f64::NAN,
        -f64::NAN,
        f64::from_bits(0x7ff0_0000_0000_0001),
    ];
    let mut state: u64 = 0x9e37_79b9_7f4a_7c15;
    for _ in 0..400 {
        state = state
            .wrapping_mul(6_364_136_223_846_793_005)
            .wrapping_add(1_442_695_040_888_963_407);
        v.push(f64::from_bits(state));
    }
    v
}

#[test]
fn binary32_constants_are_the_values_they_name() {
    assert_eq!(f32::from_bits(binary32::ZERO), 0.0);
    assert!(f32::from_bits(binary32::ZERO).is_sign_positive());
    assert_eq!(f32::from_bits(binary32::ONE), 1.0);
    assert_eq!(f32::from_bits(binary32::INFINITY), f32::INFINITY);
    assert_eq!(binary32::SIGN_BIT, (-0.0_f32).to_bits());
}

#[test]
fn binary64_constants_are_the_values_they_name() {
    assert_eq!(f64::from_bits(binary64::ZERO), 0.0);
    assert_eq!(f64::from_bits(binary64::ONE), 1.0);
    assert_eq!(f64::from_bits(binary64::INFINITY), f64::INFINITY);
    assert_eq!(binary64::SIGN_BIT, (-0.0_f64).to_bits());
}

#[test]
fn binary32_is_nan_agrees_with_hardware() {
    for a in singles() {
        assert_eq!(binary32::is_nan(a.to_bits()), a.is_nan(), "{:#x}", a.to_bits());
    }
}

#[test]
fn binary32_order_agrees_with_hardware() {
    let values = singles();
    for &a in &values {
        for &b in &values {
            assert_eq!(
                binary32::lt(a.to_bits(), b.to_bits()),
                a < b,
                "{:#x} < {:#x}",
                a.to_bits(),
                b.to_bits()
            );
        }
    }
}

#[test]
fn binary32_zeros_compare_equal() {
    let pz = 0.0_f32.to_bits();
    let nz = (-0.0_f32).to_bits();
    assert!(!binary32::lt(nz, pz));
    assert!(!binary32::lt(pz, nz));
}

#[test]
fn binary32_clamp_is_max_with_zero() {
    for a in singles() {
        let got = f32::from_bits(binary32::clamp_non_negative(a.to_bits()));
        let want = a.max(0.0);
        assert!(got == want, "{:#x}: got {} want {}", a.to_bits(), got, want);
        assert!(got >= 0.0);
        assert!(got.is_sign_positive());
    }
}

#[test]
fn binary32_clamp_keeps_positive_patterns() {
    for a in [1.0_f32, 1e-30, f32::MAX, f32::INFINITY, f32::from_bits(1)] {
        assert_eq!(binary32::clamp_non_negative(a.to_bits()), a.to_bits());
    }
    for a in [-1.0_f32, -0.0, f32::NEG_INFINITY, f32::NAN, -f32::NAN] {
        assert_eq!(binary32::clamp_non_negative(a.to_bits()), 0);
    }
}

#[test]
fn binary32_negate_flips_the_sign() {
    for a in singles() {
        assert_eq!(binary32::negate(a.to_bits()), (-a).to_bits());
        assert_eq!(binary32::negate(binary32::negate(a.to_bits())), a.to_bits());
    }
    assert_eq!(binary32::negate(1.5_f32.to_bits()), (-1.5_f32).to_bits());
}

#[test]
fn binary32_order_key_follows_the_values() {
    let values = singles();
    for &a in &values {
        let ka = binary32::order_key(a.to_bits());
        assert_eq!(binary32::from_order_key(ka), a.to_bits());
        for &b in &values {
            let kb = binary32::order_key(b.to_bits());
            if a < b {
                assert!(ka < kb, "{} < {}", a, b);
            }
            if a.to_bits() != b.to_bits() {
                assert!(ka != kb);
            }
        }
    }
    assert!(binary32::order_key((-0.0_f32).to_bits()) < binary32::order_key(0.0_f32.to_bits()));
    assert!(
        binary32::order_key(f32::NEG_INFINITY.to_bits()) < binary32::order_key(f32::MIN.to_bits())
    );
    assert_eq!(binary32::order_key(0x8000_0000), 0x7fff_ffff);
    assert_eq!(binary32::order_key(0), 0x8000_0000);
    assert_eq!(binary32::order_key(0xffff_ffff), 0);
}

#[test]
fn binary64_is_nan_agrees_with_hardware() {
    for a in doubles() {
        assert_eq!(binary64::is_nan(a.to_bits()), a.is_nan(), "{:#x}", a.to_bits());
    }
}

#[test]
fn binary64_order_agrees_with_hardware() {
    let values = doubles();
    for &a in &values {
        for &b in &values {
            assert_eq!(binary64::lt(a.to_bits(), b.to_bits()), a < b);
        }
    }
}

#[test]
fn binary64_max_ignores_nan() {
    let values = doubles();
    for &a in &values {
        for &b in &values {
            let got = f64::from_bits(binary64::max(a.to_bits(), b.to_bits()));
            let want = a.max(b);
            if want.is_nan() {
                assert!(got.is_nan());
            } else {
                assert!(got == want, "max({}, {}) = {} want {}", a, b, got, want);
            }
        }
    }
    assert_eq!(binary64::max(f64::NAN.to_bits(), 2.0_f64.to_bits()), 2.0_f64.to_bits());
    assert_eq!(binary64::max(2.0_f64.to_bits(), f64::NAN.to_bits()), 2.0_f64.to_bits());
    assert_eq!(binary64::max(1.0_f64.to_bits(), 2.0_f64.to_bits()), 2.0_f64.to_bits());
    assert_eq!(binary64::max(3.0_f64.to_bits(), 2.0_f64.to_bits()), 3.0_f64.to_bits());
}
