use std::cmp::Ordering;

use path_offset::float_bits::{f32_lt, f64_eq, f64_gt_nonneg, is_finite32, is_nan32, is_nan64, total_le32};
use path_offset::offset::flo::{
    CLEAN_ACCURACY_BITS, CLOSE_GAP_BITS, FIT_MAX_ERROR_BITS, QUAD_LIFT_FACTOR_BITS,
    WALK_MAX_ERROR_BITS, WALK_STEP_BITS,
};
use path_offset::path::shell::{AREA_TOLERANCE_BITS, HIT_TOLERANCE_BITS};

const SAMPLES32: [f32; 12] = [
    0.0,
    -0.0,
    1.0,
    -1.0,
    0.1,
    -2.5,
    f32::INFINITY,
    f32::NEG_INFINITY,
    f32::NAN,
    f32::MIN_POSITIVE,
    1.0e-40, // subnormal
    3.0e38,
];

#[test]
fn total_order_matches_std_total_cmp() {
    for a in SAMPLES32 {
        for b in SAMPLES32 {
            let got = total_le32(a.to_bits(), b.to_bits());
            let want = a.total_cmp(&b) != Ordering::Greater;
            assert_eq!(got, want, "total_le32({a}, {b})");
        }
    }
}

#[test]
fn f32_lt_matches_std() {
    for a in SAMPLES32 {
        for b in SAMPLES32 {
            assert_eq!(f32_lt(a.to_bits(), b.to_bits()), a < b, "f32_lt({a}, {b})");
        }
    }
}

#[test]
fn classification_matches_std() {
    for a in SAMPLES32 {
        assert_eq!(is_nan32(a.to_bits()), a.is_nan(), "is_nan32({a})");
        assert_eq!(is_finite32(a.to_bits()), a.is_finite(), "is_finite32({a})");
    }
}

#[test]
fn f64_eq_matches_std() {
    let samples: [f64; 8] = [0.0, -0.0, 1.0, -1.5, f64::NAN, f64::INFINITY, 1.0e-310, 0.1];
    for a in samples {
        for b in samples {
            assert_eq!(f64_eq(a.to_bits(), b.to_bits()), a == b, "f64_eq({a}, {b})");
        }
        assert_eq!(is_nan64(a.to_bits()), a.is_nan());
    }
}

#[test]
fn f64_gt_matches_std_on_non_negative_values() {
    let samples: [f64; 7] = [0.0, 1.0e-6, 0.5, 1.0, 10.0, f64::INFINITY, f64::NAN];
    for a in samples {
        for b in samples {
            assert_eq!(
                f64_gt_nonneg(a.to_bits(), b.to_bits()),
                a > b,
                "f64_gt_nonneg({a}, {b})"
            );
        }
    }
}

#[test]
fn tolerance_constants_hold_the_documented_values() {
    assert_eq!(f32::from_bits(AREA_TOLERANCE_BITS), 0.01f32);
    assert_eq!(f32::from_bits(HIT_TOLERANCE_BITS), 0.1f32);
    assert_eq!(f64::from_bits(QUAD_LIFT_FACTOR_BITS), 2.0f64 / 3.0f64);
    assert_eq!(f64::from_bits(CLOSE_GAP_BITS), 1.0e-6f64);
    assert_eq!(f64::from_bits(WALK_STEP_BITS), 0.1f64);
    assert_eq!(f64::from_bits(WALK_MAX_ERROR_BITS), 0.01f64);
    assert_eq!(f64::from_bits(FIT_MAX_ERROR_BITS), 1.0f64);
    assert_eq!(f64::from_bits(CLEAN_ACCURACY_BITS), 0.01f64);
}
