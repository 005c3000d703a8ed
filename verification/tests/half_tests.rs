use cublas_rs::half_bits::{f16_to_f32, f32_to_f16};
use cublas_rs::types::{BlasScalar, Half};
use half::f16;

fn exp16(h: u16) -> u16 {
    (h >> 10) & 0x1f
}

fn mant16(h: u16) -> u16 {
    h & 0x3ff
}

#[test]
fn widening_matches_half_crate_on_normals_zeros_and_infinities() {
    for h in 0..=u16::MAX {
        let e = exp16(h);
        let subnormal = e == 0 && mant16(h) != 0;
        let nan = e == 31 && mant16(h) != 0;
        if !subnormal && !nan {
            assert_eq!(f16_to_f32(h), f16::from_bits(h).to_f32().to_bits(), "h = {:#06x}", h);
        }
    }
}

#[test]
fn widening_flushes_subnormals_to_signed_zero() {
    assert_eq!(f16_to_f32(0x0001), 0x0000_0000);
    assert_eq!(f16_to_f32(0x83ff), 0x8000_0000);
}

#[test]
fn widening_keeps_nan_payload() {
    assert_eq!(f16_to_f32(0x7e00), 0x7fc0_0000);
    assert_eq!(f16_to_f32(0xfc01), 0xff80_2000);
}

#[test]
fn half_round_trip_law() {
    for h in 0..=u16::MAX {
        let e = exp16(h);
        let m = mant16(h);
        if (e != 0 || m == 0) && (e != 31 || m <= 1) {
            assert_eq!(f32_to_f16(f16_to_f32(h)), h, "h = {:#06x}", h);
        }
    }
}

#[test]
fn narrowing_matches_half_crate_on_exact_values() {
    for h in 0..=u16::MAX {
        let e = exp16(h);
        if e != 0 && e != 31 {
            let b = f16_to_f32(h);
            assert_eq!(f32_to_f16(b), f16::from_f32(f32::from_bits(b)).to_bits());
        }
    }
}

#[test]
fn narrowing_edge_cases() {
    assert_eq!(f32_to_f16(1.0f32.to_bits()), 0x3c00);
    assert_eq!(f32_to_f16((-2.0f32).to_bits()), 0xc000);
    // truncation, not rounding: 1 + 2^-11 + 2^-12 keeps mantissa 0
    assert_eq!(f32_to_f16((1.0f32 + 0.000_732_421_9).to_bits()), 0x3c00);
    assert_eq!(f32_to_f16(70000.0f32.to_bits()), 0x7c00);
    assert_eq!(f32_to_f16((-70000.0f32).to_bits()), 0xfc00);
    assert_eq!(f32_to_f16(1.0e-6f32.to_bits()), 0x0000);
    assert_eq!(f32_to_f16((-1.0e-6f32).to_bits()), 0x8000);
    assert_eq!(f32_to_f16(f32::INFINITY.to_bits()), 0x7c00);
    assert_eq!(f32_to_f16(f32::NAN.to_bits()) & 0x7fff, 0x7c01);
}

#[test]
fn f32_round_trip_law() {
    let b = 3.140625f32.to_bits();
    assert_eq!(f16_to_f32(f32_to_f16(b)), b);
    let b = (-65504.0f32).to_bits();
    assert_eq!(f16_to_f32(f32_to_f16(b)), b);
}

#[test]
fn half_scalar_identities_match_half_crate() {
    assert_eq!(Half::zero().to_bits(), f16::ZERO.to_bits());
    assert_eq!(Half::one().to_bits(), f16::ONE.to_bits());
    assert_eq!(Half::from_bits(0x1234).bits, 0x1234);
}

#[test]
fn narrowing_is_odd() {
    for &b in &[0x3f80_0001u32, 0x4049_0fdb, 0x3580_0000, 0x7f80_0000, 0x7fc0_0001, 0x4780_0000, 0] {
        assert_eq!(f32_to_f16(b | 0x8000_0000), f32_to_f16(b) | 0x8000);
        assert!(f32_to_f16(b) < 0x8000);
    }
}

#[test]
fn narrowing_truncates_toward_zero() {
    // 1 + 2^-23 narrows to 1.0; pi narrows to 3.140625 (0x4248), the half
    // below it; -pi to -3.140625.
    assert_eq!(f32_to_f16(0x3f80_0001), 0x3c00);
    assert_eq!(f16_to_f32(f32_to_f16(0x4049_0fdb)), 0x4049_0fdb - (0x4049_0fdb % 0x2000));
    assert_eq!(f32_to_f16(0x4049_0fdb), 0x4248);
    assert_eq!(f32_to_f16(0xc049_0fdb), 0xc248);
    for &v in &[3.14159f32, -2.71828, 65519.0, -1000.3, 0.1, 6.1e-5] {
        let w = f32::from_bits(f16_to_f32(f32_to_f16(v.to_bits())));
        assert!(w.abs() <= v.abs());
        assert_eq!(w.is_sign_negative(), v.is_sign_negative());
    }
    // below the smallest normal half (2^-14): a signed zero
    assert_eq!(f32_to_f16(1.0e-6f32.to_bits()), 0x0000);
    assert_eq!(f32_to_f16((-1.0e-6f32).to_bits()), 0x8000);
}
