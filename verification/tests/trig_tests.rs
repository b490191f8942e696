use statesync::trig::{cos_mr, sin_mr, HALF_PI_MR, PI_MR, TWO_PI_MR};

#[test]
fn sine_is_exact_at_quarter_turns() {
    assert_eq!(sin_mr(0), 0);
    assert_eq!(sin_mr(HALF_PI_MR), 1000);
    assert_eq!(sin_mr(PI_MR), 0);
    assert_eq!(sin_mr(PI_MR + HALF_PI_MR), -1000);
    assert_eq!(sin_mr(TWO_PI_MR), 0);
}

#[test]
fn cosine_is_the_sine_shifted_a_quarter_turn() {
    assert_eq!(cos_mr(0), 1000);
    assert_eq!(cos_mr(HALF_PI_MR), 0);
    assert_eq!(cos_mr(PI_MR), -1000);
    assert_eq!(cos_mr(-HALF_PI_MR), 0);
}

#[test]
fn sine_is_periodic_and_odd() {
    for a in [0, 300, 1571, 2500, 3142, 5000] {
        assert_eq!(sin_mr(a + TWO_PI_MR), sin_mr(a));
        assert_eq!(sin_mr(a - TWO_PI_MR), sin_mr(a));
        assert_eq!(sin_mr(-a), -sin_mr(a));
    }
}

#[test]
fn sine_values_stay_within_one_scaled_unit() {
    let mut a: i64 = -20_000;
    while a <= 20_000 {
        let s = sin_mr(a);
        let c = cos_mr(a);
        assert!(-1000 <= s && s <= 1000);
        assert!(-1000 <= c && c <= 1000);
        a += 37;
    }
}

#[test]
fn sine_approximation_is_close_mid_octant() {
    // sin(0.5236 rad) = 0.5; the rational approximation is within a
    // half-percent of the true value.
    let s = sin_mr(524);
    assert!((s - 500).abs() <= 5, "sin(524 mrad) = {s}");
}
