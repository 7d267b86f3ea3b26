use integer_array::consts;

#[test]
fn pi_in_integer_and_fixed_formats() {
    assert_eq!(consts::pi::<0>(), 3);
    assert_eq!(consts::pi::<20>(), 3_294_198);
    assert_eq!(consts::pi::<29>(), 1_686_629_713);
}

#[test]
fn pi_half_in_integer_and_fixed_formats() {
    assert_eq!(consts::pi_half::<0>(), 1);
    assert_eq!(consts::pi_half::<20>(), 1_647_099);
    assert_eq!(consts::pi_half::<30>(), 1_686_629_713);
}
