use integer_array::complex::{Complex, ComplexArray};
use integer_array::real_array::RealArray;
use integer_array::trait_definitions::{ComplexCartesian, Len, NewComplex};

fn to_f32<const F: u32>(v: i32) -> f32 {
    (v as f64 / (1u64 << F) as f64) as f32
}

#[test]
fn new() {
    let x = ComplexArray::<4, 18>::new_from_i32(1, 2);
    for c in x.data.iter() {
        assert_eq!((to_f32::<18>(c.re), to_f32::<18>(c.im)), (1.0, 2.0));
    }
}

#[test]
fn array_real() {
    let x = ComplexArray::<4, 20>::new_from_i32(1, 2);
    assert_eq!(x.real_part(), RealArray::<4, 20>::new_from_i32(1));
}

#[test]
fn test_new() {
    let x = ComplexArray::<4, 0>::new(1, 2);
    assert_eq!(x.data[1], Complex { re: 1, im: 2 });
}

#[test]
fn create_type_complex() {
    let x = ComplexArray::<11, 20>::new_from_i32(1, 2);
    let c = x.data[0];
    assert_eq!((to_f32::<20>(c.re), to_f32::<20>(c.im)), (1.0, 2.0));
}

#[test]
fn integration_test_real() {
    let x = ComplexArray::<11, 20>::new_from_i32(5, 2);
    assert_eq!(x.real_part(), RealArray::<11, 20>::new_from_i32(5));
}

#[test]
fn complex_scalar_new() {
    let c = <Complex as NewComplex<i32>>::new(3, -4);
    assert_eq!(c, Complex { re: 3, im: -4 });
}

#[test]
fn imag_part_and_len() {
    let x = ComplexArray::<4, 20>::new_from_i32(1, 2);
    assert_eq!(x.imag_part(), RealArray::<4, 20>::new_from_i32(2));
    assert_eq!(x.len(), 4);
}

#[test]
fn magnitude_integer() {
    let x = ComplexArray::<4, 0>::new(100, 200);
    assert_eq!(x.mag().data, [223, 223, 223, 223]);
}

#[test]
fn magnitude_fixed_point() {
    let x = ComplexArray::<4, 20>::new_from_i32(3, 4);
    let m = x.mag();
    for v in m.data.iter() {
        assert!((to_f32::<20>(*v) - 5.0).abs() < 0.001);
    }
}

#[test]
fn argument_fixed_point() {
    let x = ComplexArray::<4, 20>::new_from_i32(1, 2);
    assert_eq!(x.arg().data.map(to_f32::<20>), [1.1032009; 4]);
}

#[test]
fn argument_with_zero_real_part() {
    let x = ComplexArray::<2, 20>::new(0, 7);
    assert_eq!(x.arg().data, [1_647_099, 1_647_099]);
    let z = ComplexArray::<2, 20>::new(0, 0);
    assert_eq!(z.arg().data, [0, 0]);
}

#[test]
fn at_front_back_clip() {
    let mut x = ComplexArray::<3, 0>::new(0, 0);
    x.data[2] = Complex { re: 5, im: 6 };
    assert_eq!(x.at(3), Complex { re: 5, im: 6 });
    assert_eq!(x.at(7), x.back());
    assert_eq!(x.front(), Complex { re: 0, im: 0 });
}

#[test]
fn odd_and_even_halves() {
    let mut x = ComplexArray::<5, 0>::new(0, 0);
    for i in 0..5 {
        x.data[i] = Complex { re: i as i32, im: -(i as i32) };
    }
    let odd: [Complex; 2] = x.odd();
    let even: [Complex; 2] = x.even();
    assert_eq!(odd, [Complex { re: 1, im: -1 }, Complex { re: 3, im: -3 }]);
    assert_eq!(even, [Complex { re: 0, im: 0 }, Complex { re: 2, im: -2 }]);
}
