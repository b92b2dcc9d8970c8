use sardips::rounding::{float_quotient, float_times, round_significant, F32_LIMIT, F64_LIMIT};

#[test]
fn float_quotients_match_f64_division() {
    let mut x: u64 = 2024;
    let mut next = || {
        x = x.wrapping_mul(6364136223846793005).wrapping_add(1442695040888963407);
        x
    };
    for _ in 0..50_000 {
        let a = 1 + (next() >> (next() % 64)) % (1u64 << 63);
        let v = 1 + next() % 20_000;
        let expected = ((a as f64) / (v as f64)) as u128;
        assert_eq!(float_quotient(a as u128, v as u128), expected, "{} / {}", a, v);
    }
    assert_eq!(float_quotient(1 << 63, 1), 1 << 63);
    assert_eq!(float_quotient(9_007_199_254_740_993, 3), 3_002_399_751_580_330);
}

#[test]
fn rounding_to_significant_bits_matches_float_conversion() {
    for x in [0u64, 1, 16_777_215, 16_777_216, 16_777_217, 16_777_218, 16_777_219, 33_554_435, u64::MAX >> 1] {
        assert_eq!(round_significant(x as u128, F32_LIMIT), x as f32 as u128, "{}", x);
        assert_eq!(round_significant(x as u128, F64_LIMIT), x as f64 as u128, "{}", x);
    }
}

#[test]
fn float_products_floor_and_ceil_as_f32_does() {
    // 0.01 as a float is 10737418 / 2^30.
    for p in [-250i64, -1, 0, 1, 150, 99_999_999, 123_456_789_012] {
        assert_eq!(float_times(p, 10737418, 1 << 30, false), (p as f32 * 0.01).floor() as i64, "{}", p);
        assert_eq!(float_times(p, 10737418, 1 << 30, true), (p as f32 * 0.01).ceil() as i64, "{}", p);
    }
}
