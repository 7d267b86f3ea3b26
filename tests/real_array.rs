use integer_array::real_array::RealArray;
use integer_array::trait_definitions::{
    Atan, Cos, Initializers, Len, New, Pow, Ramp, Sin, Tan, WrapPhase,
};

type Vec2 = RealArray<2, 0>;
type Vec4 = RealArray<4, 0>;
type Vec8 = RealArray<8, 0>;
type Vec32 = RealArray<32, 0>;
type Arr4 = RealArray<4, 20>;
type Arr8 = RealArray<8, 20>;
type Arr11 = RealArray<11, 18>;

const ONE20: i32 = 1 << 20;

fn to_f32<const N: usize, const F: u32>(a: &RealArray<N, F>) -> [f32; N] {
    let mut out = [0.0f32; N];
    for i in 0..N {
        out[i] = (a.data[i] as f64 / (1u64 << F) as f64) as f32;
    }
    out
}

fn from_f64<const N: usize, const F: u32>(v: f64) -> i32 {
    (v * (1u64 << F) as f64).round() as i32
}

#[test]
fn neg() {
    let x = Arr4::new_from_i32(22);
    let x = x.neg();
    assert_eq!(x.data[1], -22 * ONE20);
}

#[test]
fn zero_divide() {
    let x = Arr4::ramp(0, 22 * ONE20);
    let x = x.div_int(10);
    assert_eq!(x.data[0], 0);
}

#[test]
fn sybtract_by_array() {
    let x = RealArray::<8, 20>::ramp(0, 22 * ONE20);
    let x = x.int_sub(3);
    assert_eq!(x.data[1], -19 * ONE20);
}

#[test]
fn create_type_real() {
    let x = Arr11::new_from_i32(66);
    let y = Arr11::new_from_i32(2);
    let x = x.div_array(&y);
    assert_eq!(x.front(), 33 << 18);
}

#[test]
fn test_scalar_len() {
    let x = Vec2::zeros();
    assert_eq!(x.len(), 2);
}

#[test]
fn test_scalar_at() {
    let x = Vec2::ones();
    assert_eq!(x.at(0), 1);
}

#[test]
fn test_scalar_new() {
    let x = Vec2::new(200);
    assert_eq!(x.at(0), 200);
}

#[test]
fn test_scalar_front() {
    let x = Vec2::new(200);
    assert_eq!(x.front(), 200);
}

#[test]
fn test_scalar_back() {
    let x = Vec32::ramp(100, 20);
    assert_eq!(x.back(), 720);
}

#[test]
fn test_scalar_bias() {
    let x = Vec2::new(200);
    let y = x.bias(5);
    assert_eq!(y.front(), 205);
}

#[test]
fn test_zeros() {
    let x = Vec2::zeros();
    assert_eq!(x.at(1), 0);
}

#[test]
fn test_scalar_scale() {
    let x = Vec2::new(100);
    let y = x.scale(5);
    assert_eq!(y.front(), 500);
}

#[test]
fn test_max() {
    let x = Vec32::ramp(100, 20);
    assert_eq!(x.max(), 720);
}

#[test]
fn test_min() {
    let x = Vec32::ramp(100, 20);
    assert_eq!(x.min(), 100);
}

#[test]
fn test_argmax() {
    let x = Vec32::ramp(100, 20);
    assert_eq!(x.argmax(), 31);
}

#[test]
fn test_argmin() {
    let x = Vec32::ramp(100, 20);
    assert_eq!(x.argmin(), 0);
}

#[test]
fn test_sqrt() {
    let x = Vec4::ramp(10000, 1000);
    assert_eq!(x.sqrt(1).data, [100, 104, 109, 114]);
}

#[test]
fn test_wrap_phase() {
    let x = Vec8::ramp(0, 22);
    assert_eq!(x.wrap_phase_norm(50).data, [0, 22, 44, -34, -12, 10, 32, -46]);
}

#[test]
fn test_index() {
    let x = Vec8::ramp(0, 22);
    assert_eq!(x.get(2), 44i32);
}

#[test]
fn test_mut_index() {
    let mut x = Vec8::ramp(0, 22);
    x.set(2, 56);
    assert_eq!(x.get(2), 56i32);
}

#[test]
fn test_mul() {
    let mut x = Vec8::ramp(0, 22);
    x = x.mul_int(3);
    assert_eq!(x.get(1), 66i32);
}

#[test]
fn test_add() {
    let mut x = RealArray::<8, 0>::ramp(0, 22);
    x = x.add_int(3);
    assert_eq!(x.get(1), 25i32);
}

#[test]
fn test_neg() {
    let mut x = RealArray::<8, 0>::ramp(0, 22);
    x = x.neg();
    assert_eq!(x.get(1), -22i32);
}

#[test]
fn test_std_display() {
    let x = Vec32::ramp(100, 20);
    println!("{:?}", x);
    assert_eq!(x.max(), 720);
}

#[test]
fn ramp_element_is_start_plus_index_times_step() {
    let x = RealArray::<6, 0>::ramp(-7, 3);
    for i in 0..6 {
        assert_eq!(x.data[i], -7 + 3 * i as i32);
    }
}

#[test]
fn ramp_saturates_at_the_bounds() {
    let x = RealArray::<3, 0>::ramp(i32::MAX - 1, 1);
    assert_eq!(x.data, [i32::MAX - 1, i32::MAX, i32::MAX]);
    let y = RealArray::<3, 0>::ramp(i32::MIN + 1, -1);
    assert_eq!(y.data, [i32::MIN + 1, i32::MIN, i32::MIN]);
}

#[test]
fn scalar_divided_by_array() {
    let x = Vec4::ramp(0, 22);
    assert_eq!(x.int_div(1000).data, [i32::MAX, 45, 22, 15]);
}

#[test]
fn scalar_divided_by_array_fixed_point() {
    let x = Arr4::ramp(0, 22 * ONE20);
    assert_eq!(to_f32(&x.int_div(1000)), [2048.0, 45.454544, 22.727272, 15.151515]);
    let y = x.int_div(1);
    assert_eq!(to_f32(&y), [2048.0, 0.045454025, 0.022727013, 0.015151024]);
}

#[test]
fn division_zero_policy() {
    let x = RealArray::<3, 0>::ramp(0, 5);
    let zeros = RealArray::<3, 0>::zeros();
    // 0 / 0 is zero, x / 0 is the largest value.
    assert_eq!(x.div_array(&zeros).data, [0, i32::MAX, i32::MAX]);
    // 0 / y is zero for every y.
    let y = RealArray::<3, 0>::ramp(-1, 1);
    assert_eq!(zeros.div_array(&y).data, [0, 0, 0]);
    assert_eq!(x.div_int(0).data, [0, i32::MAX, i32::MAX]);
    assert_eq!(x.int_div(0).data, [0, 0, 0]);
}

#[test]
fn division_saturates_on_overflow() {
    let x = RealArray::<1, 0>::new(i32::MIN);
    let y = RealArray::<1, 0>::new(-1);
    assert_eq!(x.div_array(&y).data, [i32::MAX]);
}

#[test]
fn array_arithmetic_fixed_point() {
    let mut x = Arr4::ramp(0, 22 * ONE20);
    let y = Arr4::new_from_i32(10);
    x = x.add_array(&y);
    assert_eq!(to_f32(&x), [10.0, 32.0, 54.0, 76.0]);
    x = x.sub_array(&y);
    assert_eq!(to_f32(&x), [0.0, 22.0, 44.0, 66.0]);
    let z = Arr4::ramp(10 * ONE20, 22 * ONE20).mul_array(&y);
    assert_eq!(to_f32(&z), [100.0, 320.0, 540.0, 760.0]);
    let w = Arr4::ramp(0, 22 * ONE20).div_array(&y);
    assert_eq!(w.data.map(|v| v >> 20), [0, 2, 4, 6]);
}

#[test]
fn add_and_sub_saturate() {
    let x = RealArray::<2, 0>::new(i32::MAX);
    assert_eq!(x.add_int(1).data, [i32::MAX, i32::MAX]);
    let y = RealArray::<2, 0>::new(i32::MIN);
    assert_eq!(y.sub_int(1).data, [i32::MIN, i32::MIN]);
    assert_eq!(y.neg().data, [i32::MAX, i32::MAX]);
}

#[test]
fn bias_and_scale_fixed_point() {
    let x = RealArray::<2, 20>::new_from_i32(200);
    let y = x.bias(ONE20 / 4);
    assert_eq!(to_f32(&y)[0], 200.25);
    let z = RealArray::<2, 20>::new_from_i32(100).scale(5 * ONE20);
    assert_eq!(to_f32(&z)[0], 500.0);
}

#[test]
fn at_clips_to_last_element() {
    let x = RealArray::<5, 0>::ramp(1, 1);
    assert_eq!(x.at(5), 5);
    assert_eq!(x.at(4), 5);
    assert_eq!(x.at(usize::MAX), x.back());
    let one = RealArray::<1, 0>::new(9);
    assert_eq!(one.at(1), one.at(0));
    assert_eq!(one.front(), one.back());
}

#[test]
fn mean_is_sum_over_length() {
    let x = RealArray::<4, 0>::ramp(1, 2);
    assert_eq!(x.sum(), 16);
    assert_eq!(x.mean(), 4);
    let y = RealArray::<3, 0>::ramp(-2, -1);
    assert_eq!(y.sum(), -9);
    assert_eq!(y.mean(), -3);
    let z = RealArray::<3, 0>::ramp(0, 1);
    assert_eq!(z.mean(), z.sum() / 3);
    let n = RealArray::<3, 0>::ramp(-1, -1);
    assert_eq!(n.mean(), -2);
}

#[test]
fn sum_saturates() {
    let x = RealArray::<2, 0>::new(i32::MAX);
    assert_eq!(x.sum(), i32::MAX);
    assert_eq!(x.mean(), i32::MAX / 2);
}

#[test]
fn variance_population() {
    // 2, 4, 6, 8: mean 5, squared deviations 9 1 1 9, variance 5.
    let x = RealArray::<4, 0>::ramp(2, 2);
    assert_eq!(x.var(), 5);
    let f = RealArray::<4, 20>::ramp(2 * ONE20, 2 * ONE20);
    assert_eq!(f.var(), 5 * ONE20);
}

#[test]
fn argmax_and_argmin_take_first_on_ties() {
    let mut x = RealArray::<5, 0>::zeros();
    x.set(1, 7);
    x.set(3, 7);
    x.set(2, -4);
    x.set(4, -4);
    assert_eq!(x.max(), 7);
    assert_eq!(x.argmax(), 1);
    assert_eq!(x.min(), -4);
    assert_eq!(x.argmin(), 2);
    let m = RealArray::<3, 0>::new(i32::MIN);
    assert_eq!(m.argmax(), 0);
    assert_eq!(m.max(), i32::MIN);
}

#[test]
fn powi_elementwise() {
    let x = RealArray::<3, 0>::ramp(1, 1);
    assert_eq!(x.powi(3).data, [1, 8, 27]);
    assert_eq!(x.powi(0).data, [1, 1, 1]);
    let f = RealArray::<2, 20>::new(ONE20 / 2);
    assert_eq!(to_f32(&f.powi(2)), [0.25, 0.25]);
}

#[test]
fn wrap_phase_fixed_point() {
    let step = from_f64::<8, 20>(3.1415 / 3.0);
    let x = Arr8::ramp(0, step);
    let y = x.wrap_phase();
    let pi = 3_294_198;
    for i in 0..8 {
        assert!(-pi <= y.data[i] && y.data[i] < pi);
        assert_eq!((x.data[i] as i64 - y.data[i] as i64) % (2 * pi as i64), 0);
    }
    assert_eq!(y.data[0], 0);
    assert_eq!(y.data[1], x.data[1]);
}

#[test]
fn wrap_phase_leaves_wrapped_values_alone() {
    let x = RealArray::<8, 0>::ramp(-50, 13);
    assert_eq!(x.wrap_phase_norm(50).data, x.data);
    let twice = x.wrap_phase_norm(7).wrap_phase_norm(7);
    assert_eq!(twice.data, x.wrap_phase_norm(7).data);
}

#[test]
fn wrap_phase_extremes() {
    let x = RealArray::<2, 0>::ramp(i32::MIN, i32::MAX);
    let y = x.wrap_phase_norm(50);
    assert_eq!(y.data, [(i32::MIN as i64 + 50).rem_euclid(100) as i32 - 50, (-1i64 + 50).rem_euclid(100) as i32 - 50]);
}

#[test]
fn sin_fixed_point_values() {
    let step = ((3.1415f32 / 6.0f32) as f64 * ONE20 as f64).round() as i32;
    let x = Arr8::ramp(0, step).wrap_phase();
    let y = x.sin();
    assert_eq!(
        to_f32(&y),
        [0.0, 0.49998665, 0.8660097, 1.0000038, 0.86605644, 0.50006676, 0.000091552734, -0.4999075]
    );
}

#[test]
fn cos_fixed_point_values() {
    let x = Arr8::ramp(0, 60 * ONE20).wrap_phase();
    let y = x.cos();
    assert_eq!(
        to_f32(&y),
        [1.0, -0.95240974, 0.814167, -0.5984316, 0.3257389, -0.022058487, -0.2837639, 0.56254864]
    );
}

#[test]
fn tan_fixed_point_values() {
    let step = (0.17f32 as f64 * 16.0).round() as i32;
    let x = RealArray::<8, 4>::ramp(0, step);
    assert_eq!(to_f32(&x.tan()), [0.0, 0.1875, 0.375, 0.5625, 0.875, 1.25, 1.8125, 3.1875]);
}

#[test]
fn atan_fixed_point_values() {
    let step = (0.1f32 as f64 * 16.0).round() as i32;
    let x = RealArray::<8, 4>::ramp(0, step);
    assert_eq!(to_f32(&x.atan()), [0.0, 0.125, 0.25, 0.3125, 0.4375, 0.5, 0.625, 0.6875]);
}

#[test]
fn sin_and_cos_accuracy() {
    let one = ONE20 as f64;
    let mut k: i32 = -314;
    while k < 314 {
        let v = k as f64 / 100.0;
        let x = RealArray::<1, 20>::new((v * one).round() as i32);
        let xv = x.data[0] as f64 / one;
        let s = x.sin().data[0] as f64 / one;
        let c = x.cos().data[0] as f64 / one;
        assert!((s - xv.sin()).abs() < 0.01, "sin at {}", xv);
        assert!((c - xv.cos()).abs() < 0.01, "cos at {}", xv);
        k += 1;
    }
}

#[test]
fn tan_accuracy_inside_domain() {
    let one = ONE20 as f64;
    let mut k: i32 = -100;
    while k <= 100 {
        let v = k as f64 / 100.0;
        let x = RealArray::<1, 20>::new((v * one).round() as i32);
        let xv = x.data[0] as f64 / one;
        let t = x.tan().data[0] as f64 / one;
        assert!((t - xv.tan()).abs() < 0.01, "tan at {}", xv);
        k += 1;
    }
}

#[test]
fn sqrt_fixed_point_elementwise() {
    let x = Arr4::ramp(18 * ONE20, 10 * ONE20);
    let y = x.sqrt(from_f64::<4, 20>(0.1));
    assert_eq!(y.data[1] as f64 / ONE20 as f64, 5.309782028198242);
}

#[test]
fn ones_in_fixed_point() {
    let x = Arr4::ones();
    assert_eq!(x.data, [ONE20; 4]);
}

#[test]
fn sin_scaled_quadrants() {
    let mut x = RealArray::<7, 0>::zeros();
    let angles = [-180, -90, -30, 0, 30, 90, 179];
    for i in 0..7 {
        x.set(i, angles[i]);
    }
    assert_eq!(x.sin_norm(180, 1000).data, [0, -1000, -500, 0, 500, 1000, 17]);
}

#[test]
fn test_sin() {
    let x = Vec8::ramp(0, 20);
    assert_eq!(x.sin_norm(180, 100).data, [0, 34, 64, 86, 98, 98, 86, 64]);
}

#[test]
fn test_tan() {
    let x = Vec8::ramp(0, 20);
    assert_eq!(x.tan_norm(180, 100).data, [0, 36, 83, 171, 402, 907, 1776, 2615]);
}
