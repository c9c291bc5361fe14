use rusterizer::fixed::{floor_div, narrow, scaled_div, scaled_mul, Fixed, ONE};

fn fx(v: f64) -> Fixed {
    Fixed::from_raw((v * 65536.0).round() as i32)
}

#[test]
fn one_has_sixteen_fractional_bits() {
    assert_eq!(ONE, 65536);
    assert_eq!(Fixed::from_int(1).raw, 65536);
    assert_eq!(Fixed::from_int(-3).raw, -196608);
    assert_eq!(Fixed::from_int(i16::MAX).raw, 2147418112);
    assert_eq!(Fixed::from_int(i16::MIN).raw, i32::MIN);
    assert_eq!(Fixed::from_raw(17).raw, 17);
}

#[test]
fn product_of_halves_is_a_quarter() {
    let half = Fixed::from_raw(32768);
    assert_eq!(half.checked_mul(half), Some(Fixed::from_raw(16384)));
}

#[test]
fn product_is_exact_where_it_can_be() {
    assert_eq!(fx(1.5).checked_mul(fx(2.25)), Some(Fixed::from_raw(221184)));
    assert_eq!(fx(-1.5).checked_mul(fx(2.25)), Some(Fixed::from_raw(-221184)));
    assert_eq!(Fixed::from_int(0).checked_mul(Fixed::from_raw(i32::MIN)), Some(Fixed::from_raw(0)));
}

#[test]
fn product_rounds_down() {
    // 1/65536 * 1/65536 is below the resolution: zero from above, -1 from below.
    assert_eq!(Fixed::from_raw(1).checked_mul(Fixed::from_raw(1)), Some(Fixed::from_raw(0)));
    assert_eq!(Fixed::from_raw(-1).checked_mul(Fixed::from_raw(1)), Some(Fixed::from_raw(-1)));
}

#[test]
fn product_out_of_range_is_none() {
    let big = Fixed::from_int(256);
    assert_eq!(big.checked_mul(big), None);
    assert_eq!(big.checked_mul(Fixed::from_int(-256)), None);
    assert_eq!(Fixed::from_int(-128).checked_mul(Fixed::from_int(256)), Some(Fixed::from_raw(i32::MIN)));
    assert_eq!(Fixed::from_int(128).checked_mul(Fixed::from_int(256)), None);
}

#[test]
fn quotient_rounds_down_for_either_sign_of_divisor() {
    let one = Fixed::from_int(1);
    let three = Fixed::from_int(3);
    assert_eq!(one.checked_div(three), Some(Fixed::from_raw(21845)));
    assert_eq!(Fixed::from_int(-1).checked_div(three), Some(Fixed::from_raw(-21846)));
    assert_eq!(one.checked_div(Fixed::from_int(-3)), Some(Fixed::from_raw(-21846)));
    assert_eq!(Fixed::from_int(-1).checked_div(Fixed::from_int(-3)), Some(Fixed::from_raw(21845)));
    assert_eq!(Fixed::from_int(7).checked_div(Fixed::from_int(2)), Some(Fixed::from_raw(229376)));
}

#[test]
fn quotient_by_zero_is_none() {
    assert_eq!(Fixed::from_int(1).checked_div(Fixed::from_int(0)), None);
    assert_eq!(Fixed::from_int(0).checked_div(Fixed::from_int(0)), None);
}

#[test]
fn quotient_out_of_range_is_none() {
    assert_eq!(Fixed::from_int(1).checked_div(Fixed::from_raw(1)), None);
    assert_eq!(Fixed::from_raw(32767).checked_div(Fixed::from_raw(1)), Some(Fixed::from_raw(2147418112)));
    assert_eq!(Fixed::from_raw(32768).checked_div(Fixed::from_raw(1)), None);
    assert_eq!(Fixed::from_raw(-32768).checked_div(Fixed::from_raw(1)), Some(Fixed::from_raw(i32::MIN)));
}

#[test]
fn whole_part_rounds_toward_zero() {
    assert_eq!(fx(2.75).to_whole(), 2);
    assert_eq!(fx(-2.75).to_whole(), -2);
    assert_eq!(fx(-0.5).to_whole(), 0);
    assert_eq!(Fixed::from_raw(i32::MIN).to_whole(), -32768);
    assert_eq!(Fixed::from_raw(i32::MAX).to_whole(), 32767);
}

#[test]
fn floor_division_of_wide_values() {
    assert_eq!(floor_div(7, 2), 3);
    assert_eq!(floor_div(-7, 2), -4);
    assert_eq!(floor_div(-8, 2), -4);
    assert_eq!(floor_div(0, 5), 0);
    assert_eq!(floor_div(i128::MIN, 1), i128::MIN);
}

#[test]
fn narrowing_keeps_what_fits() {
    assert_eq!(narrow(2147483647), Some(Fixed::from_raw(i32::MAX)));
    assert_eq!(narrow(2147483648), None);
    assert_eq!(narrow(-2147483648), Some(Fixed::from_raw(i32::MIN)));
    assert_eq!(narrow(-2147483649), None);
}

#[test]
fn wide_product_and_quotient() {
    assert_eq!(scaled_mul(1 << 40, 1 << 40), 1 << 64);
    assert_eq!(scaled_mul(-3, 1), -1);
    assert_eq!(scaled_div(1 << 60, 3), ((1i128 << 76) / 3));
    assert_eq!(scaled_div(-65536, -196608), 21845);
    assert_eq!(scaled_div(65536, -196608), -21846);
}
