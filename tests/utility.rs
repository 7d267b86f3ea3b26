use integer_array::utility;
use integer_array::utility_functions;

#[test]
fn utility_powi() {
    assert_eq!(utility::powi(3, 2), 9);
}

#[test]
fn utility_functions_powi() {
    assert_eq!(utility_functions::powi(3, 2), 9);
}

#[test]
fn sqrt() {
    assert_eq!(utility_functions::sqrt(100), 10);
}

#[test]
fn powi_zeroth_power_is_one() {
    assert_eq!(utility::powi(7, 0), 1);
    assert_eq!(utility_functions::powi(-2, 0), 1);
}

#[test]
fn powi_negative_base_and_largest_power() {
    assert_eq!(utility::powi(-2, 3), -8);
    assert_eq!(utility::powi(-2, 31), i32::MIN);
    assert_eq!(utility::powi(2, 30), 1 << 30);
}

#[test]
fn fixed_powi_in_fixed_point() {
    // 1.5^3 = 3.375 with 20 fractional bits.
    let x = 3 << 19;
    assert_eq!(utility::fixed_powi::<20>(x, 3), 3_538_944);
    assert_eq!(utility::fixed_powi::<20>(x, 1), x);
    assert_eq!(utility::fixed_powi::<20>(x, 0), 1 << 20);
}

#[test]
fn fixed_powi_saturates() {
    assert_eq!(utility::fixed_powi::<0>(1 << 16, 2), i32::MAX);
    assert_eq!(utility::fixed_powi::<0>(-(1 << 16), 3), i32::MIN);
}

#[test]
fn sqrt_integer_values() {
    assert_eq!(utility_functions::sqrt(50_000), 223);
    assert_eq!(utility_functions::sqrt(10_000), 100);
    assert_eq!(utility_functions::sqrt(13_000), 114);
}

#[test]
fn sqrt_of_zero_and_negative_is_zero() {
    assert_eq!(utility_functions::sqrt(0), 0);
    assert_eq!(utility_functions::sqrt(-25), 0);
    assert_eq!(utility::sqrt::<20>(-(5 << 20), 1), 0);
}

#[test]
fn sqrt_fixed_point() {
    // sqrt(110) with a tolerance of 0.025, 20 fractional bits.
    let r = utility::sqrt::<20>(110 << 20, 26_214);
    assert_eq!(r as f64 / (1 << 20) as f64, 10.488178253173828);
}

#[test]
fn atan2_precise_fixed_value() {
    // atan(0.6 / 0.4) with 28 fractional bits.
    let y = 161_061_274;
    let x = 107_374_182;
    let a = utility::atan2_precise_fixed::<28>(y, x);
    assert_eq!((a as f64 / (1u64 << 28) as f64) as f32, 0.983006064f32);
}

#[test]
fn atan_precise_fixed_matches_atan2() {
    let d = integer_array::scalar::div_fx(161_061_274, 107_374_182, 28);
    assert_eq!(
        utility::atan_precise_fixed::<28>(d),
        utility::atan2_precise_fixed::<28>(161_061_274, 107_374_182)
    );
    assert_eq!(utility::atan_precise_fixed::<20>(0), 0);
}

#[test]
fn atan2_with_zero_real_part() {
    assert_eq!(utility::atan2_precise_fixed::<20>(5, 0), 1_647_099);
    assert_eq!(utility::atan2_precise_fixed::<20>(-5, 0), -1_647_099);
    assert_eq!(utility::atan2_precise_fixed::<20>(0, 0), 0);
}

#[test]
fn atan_accuracy_within_quarter_turn() {
    let one = (1i64 << 20) as f64;
    let mut k: i32 = -100;
    while k <= 100 {
        let x = (k as f64) / 100.0;
        let bits = (x * one).round() as i32;
        let a = utility::atan_precise_fixed::<20>(bits) as f64 / one;
        let err_deg = (a - (bits as f64 / one).atan()).abs().to_degrees();
        assert!(err_deg < 0.003 + 1e-3, "x = {}, error {} degrees", x, err_deg);
        k += 1;
    }
}

#[test]
fn sqrt_is_integer_floor() {
    assert_eq!(utility_functions::sqrt(1), 1);
    assert_eq!(utility_functions::sqrt(2), 1);
    assert_eq!(utility_functions::sqrt(3), 1);
    assert_eq!(utility_functions::sqrt(4), 2);
    assert_eq!(utility_functions::sqrt(8), 2);
    assert_eq!(utility_functions::sqrt(9), 3);
    assert_eq!(utility_functions::sqrt(i32::MAX), 46_340);
    for n in 1..5000 {
        let r = utility_functions::sqrt(n);
        assert!(r * r <= n && n < (r + 1) * (r + 1), "n = {}", n);
    }
}

#[test]
fn sqrt_fixed_point_within_tolerance() {
    // sqrt(5.0) with 4 fractional bits and a tolerance of 0.125.
    assert_eq!(utility::sqrt::<4>(80, 2), 36);
    // sqrt(1.0) and sqrt(0.25) with 20 fractional bits.
    assert_eq!(utility::sqrt::<20>(1 << 20, 1), 1 << 20);
    assert_eq!(utility::sqrt::<20>(1 << 18, 1), 1 << 19);
}
