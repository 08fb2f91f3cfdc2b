use mandelbrot::fixed::{Fixed, FRAC_BITS, SCALE};

#[test]
fn scale_is_two_to_the_fractional_bits() {
    assert_eq!(SCALE, 1i64 << FRAC_BITS);
    assert_eq!(SCALE, 281_474_976_710_656);
}

#[test]
fn from_int_scales_whole_numbers() {
    assert_eq!(Fixed::from_int(0).bits, 0);
    assert_eq!(Fixed::from_int(1).bits, SCALE);
    assert_eq!(Fixed::from_int(-2).bits, -2 * SCALE);
    assert_eq!(Fixed::from_int(i16::MAX).bits, 32767 * SCALE);
    assert_eq!(Fixed::from_int(i16::MIN).bits, i64::MIN);
}

#[test]
fn from_ratio_rounds_toward_zero() {
    assert_eq!(Fixed::from_ratio(1, 2), Some(Fixed { bits: SCALE / 2 }));
    assert_eq!(Fixed::from_ratio(1, 10), Some(Fixed { bits: 28_147_497_671_065 }));
    assert_eq!(Fixed::from_ratio(-1, 10), Some(Fixed { bits: -28_147_497_671_065 }));
    assert_eq!(Fixed::from_ratio(-2, 3), Some(Fixed { bits: -187_649_984_473_770 }));
    assert_eq!(Fixed::from_ratio(2, 3), Some(Fixed { bits: 187_649_984_473_770 }));
    assert_eq!(Fixed::from_ratio(-3, 3), Some(Fixed::from_int(-1)));
    assert_eq!(Fixed::from_ratio(0, 7), Some(Fixed { bits: 0 }));
}

#[test]
fn from_ratio_rejects_zero_denominator() {
    assert_eq!(Fixed::from_ratio(1, 0), None);
    assert_eq!(Fixed::from_ratio(0, 0), None);
}

#[test]
fn from_ratio_rejects_out_of_range() {
    assert_eq!(Fixed::from_ratio(32768, 1), None);
    assert_eq!(Fixed::from_ratio(-32769, 1), None);
    assert_eq!(Fixed::from_ratio(-32768, 1), Some(Fixed { bits: i64::MIN }));
    assert_eq!(Fixed::from_ratio(i64::MAX, 1), None);
    assert_eq!(Fixed::from_ratio(i64::MAX, u64::MAX), Some(Fixed { bits: 140_737_488_355_327 }));
}

#[test]
fn checked_add_and_sub_are_exact_in_range() {
    let a = Fixed { bits: 5 };
    let b = Fixed { bits: -7 };
    assert_eq!(a.checked_add(b), Some(Fixed { bits: -2 }));
    assert_eq!(a.checked_sub(b), Some(Fixed { bits: 12 }));
    assert_eq!(b.checked_sub(a), Some(Fixed { bits: -12 }));
}

#[test]
fn checked_add_and_sub_reject_overflow() {
    let top = Fixed { bits: i64::MAX };
    let bottom = Fixed { bits: i64::MIN };
    let one = Fixed { bits: 1 };
    assert_eq!(top.checked_add(one), None);
    assert_eq!(bottom.checked_sub(one), None);
    assert_eq!(bottom.checked_add(one), Some(Fixed { bits: i64::MIN + 1 }));
    assert_eq!(top.checked_sub(bottom), None);
}

#[test]
fn fixed_orders_by_value() {
    assert!(Fixed::from_int(-1) < Fixed::from_int(0));
    assert!(Fixed::from_ratio(1, 3).unwrap() < Fixed::from_ratio(1, 2).unwrap());
}
