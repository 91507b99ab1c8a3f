use cacao_engine::{f64_bits_to_i64_trunc, i64_to_f64_bits};

#[test]
fn bitwise_truncation_matches_the_platform_cast() {
    for &f in &[
        0.0f64, -0.0, 0.9, -0.9, 1.0, -1.0, 123.456, -123.456, 4503599627370495.5,
        9.3e18, -9.3e18, 1e300, -1e300, f64::MAX, f64::MIN, f64::NAN, f64::INFINITY,
        f64::NEG_INFINITY, f64::MIN_POSITIVE, 9223372036854775807.0, -9223372036854775808.0,
    ] {
        assert_eq!(f64_bits_to_i64_trunc(f.to_bits()), f as i64, "value {f}");
    }
}

#[test]
fn bitwise_widening_matches_the_platform_cast() {
    for &v in &[
        0i64, 1, -1, 2, 42, -1000, 1 << 52, (1 << 53) - 1, (1 << 53) + 1, (1 << 53) + 3,
        i64::MAX, i64::MIN, i64::MAX - 511, 6148914691236517205, -6148914691236517206,
    ] {
        assert_eq!(i64_to_f64_bits(v), (v as f64).to_bits(), "value {v}");
    }
}
