use buddhabrot::{hits_to_col_lin, hits_to_col_sqrt};

#[test]
fn sqrt_zero_max_is_black() {
    for v in [0u32, 1, 7, 1000, u32::MAX] {
        assert_eq!(hits_to_col_sqrt(v, 0), 0);
    }
}

#[test]
fn sqrt_full_count_is_white() {
    for m in [1u32, 2, 3, 999, 123456, u32::MAX] {
        assert_eq!(hits_to_col_sqrt(m, m), 255);
    }
}

#[test]
fn sqrt_exact_levels() {
    assert_eq!(hits_to_col_sqrt(0, 10), 0);
    // 255 * (1/8)^(1/3) = 127.5, rounded up
    assert_eq!(hits_to_col_sqrt(1, 8), 128);
    // 255 * (1/27)^(1/3) = 85
    assert_eq!(hits_to_col_sqrt(1, 27), 85);
    // 255 * (8/27)^(1/3) = 170
    assert_eq!(hits_to_col_sqrt(8, 27), 170);
    // 255 * (1/1000)^(1/3) = 25.5, rounded up
    assert_eq!(hits_to_col_sqrt(1, 1000), 26);
    // 255 * (1/2)^(1/3) = 202.39...
    assert_eq!(hits_to_col_sqrt(1, 2), 202);
}

#[test]
fn sqrt_above_max_saturates() {
    assert_eq!(hits_to_col_sqrt(9, 4), 255);
}

#[test]
fn sqrt_matches_float_rounding() {
    for m in [3u32, 17, 100, 1001] {
        for v in 0..=m {
            let exact = 255.0f64 * (v as f64 / m as f64).powf(1.0 / 3.0);
            let got = hits_to_col_sqrt(v, m) as f64;
            assert!((got - exact).abs() <= 0.5 + 1e-9, "v={} m={}", v, m);
        }
    }
}

#[test]
fn lin_levels() {
    assert_eq!(hits_to_col_lin(3, 0), 0);
    assert_eq!(hits_to_col_lin(0, 9), 0);
    assert_eq!(hits_to_col_lin(5, 5), 255);
    assert_eq!(hits_to_col_lin(1, 2), 128);
    assert_eq!(hits_to_col_lin(1, 3), 85);
    assert_eq!(hits_to_col_lin(2, 3), 170);
    assert_eq!(hits_to_col_lin(7, 5), 255);
}
