use std::f64::consts::PI;

#[test]
fn test_supersmoother_coefficients() {
    // Verify the exact coefficients are used correctly
    // a1 = exp(-1.414 * PI / 10) ≈ 0.639
    // b1 = 2 * a1 * cos(1.414 * PI / 10) ≈ 1.178
    let a1: f64 = (-1.414_f64 * PI / 10.0).exp();
    let expected_a1 = 0.639;
    assert!(
        (a1 - expected_a1).abs() < 0.01,
        "a1 coefficient should be approximately 0.639"
    );

    let b1: f64 = 2.0 * a1 * (1.414_f64 * 180.0 / 10.0).to_radians().cos();
    // b1 ≈ 1.158 (calculated from Ehlers formula using degrees converted to radians)
    assert!(
        (b1 - 1.158).abs() < 0.02,
        "b1 coefficient should be approximately 1.158, got {}",
        b1
    );

    // Verify c1, c2, c3 coefficients are valid
    let c2 = b1;
    let c3 = -a1 * a1;
    let c1 = 1.0 - c2 - c3;

    assert!(
        c1 > 0.0 && c1 < 1.0,
        "c1 should be positive and less than 1, got {}",
        c1
    );
    assert!(
        c2 > 1.0 && c2 < 2.0,
        "c2 (b1) should be between 1 and 2, got {}",
        c2
    );
    assert!(
        c3 < 0.0 && c3 > -1.0,
        "c3 should be negative and between -1 and 0, got {}",
        c3
    );
}

#[test]
fn test_roofing_filter_highpass_coefficient() {
    // Verify the HighPass coefficient calculation
    let alpha: f64 = (0.707_f64 * 2.0 * PI / 48.0).powi(2);
    let expected_alpha = (0.707_f64 * 2.0 * 3.14159 / 48.0).powi(2);
    assert!(
        (alpha - expected_alpha).abs() < 0.0001,
        "Alpha coefficient calculation should be correct"
    );
}
