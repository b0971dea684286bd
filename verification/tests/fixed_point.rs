use fingers::fixed::{Fixed, ONE_RAW};

#[test]
fn one_is_65536_raw_units() {
    assert_eq!(ONE_RAW, 65536);
    assert_eq!(Fixed::from_int(1).raw(), 65536);
    assert_eq!(Fixed::from_int(-3).raw(), -196608);
    assert_eq!(Fixed::from_raw(17).raw(), 17);
}

#[test]
fn from_int_saturates() {
    assert_eq!(Fixed::from_int(32767).raw(), 2147418112);
    assert_eq!(Fixed::from_int(32768).raw(), i32::MAX);
    assert_eq!(Fixed::from_int(i32::MAX).raw(), i32::MAX);
    assert_eq!(Fixed::from_int(-32768).raw(), i32::MIN);
    assert_eq!(Fixed::from_int(-32769).raw(), i32::MIN);
}

#[test]
fn from_ratio_rounds_down() {
    assert_eq!(Fixed::from_ratio(1, 2).raw(), 32768);
    assert_eq!(Fixed::from_ratio(3, 10).raw(), 19660);
    assert_eq!(Fixed::from_ratio(1, 3).raw(), 21845);
    assert_eq!(Fixed::from_ratio(-1, 3).raw(), -21846);
    assert_eq!(Fixed::from_ratio(-1, 2).raw(), -32768);
    assert_eq!(Fixed::from_ratio(0, 7).raw(), 0);
}

#[test]
fn from_ratio_saturates() {
    assert_eq!(Fixed::from_ratio(i64::MAX, 1).raw(), i32::MAX);
    assert_eq!(Fixed::from_ratio(i64::MIN, 1).raw(), i32::MIN);
    assert_eq!(Fixed::from_ratio(i64::MAX, i64::MAX).raw(), 65536);
}

#[test]
fn addition_and_subtraction_saturate() {
    let a = Fixed::from_raw(5);
    let b = Fixed::from_raw(-8);
    assert_eq!(a.saturating_add(b).raw(), -3);
    assert_eq!(a.saturating_sub(b).raw(), 13);
    let top = Fixed::from_raw(i32::MAX);
    let bottom = Fixed::from_raw(i32::MIN);
    assert_eq!(top.saturating_add(Fixed::from_raw(1)).raw(), i32::MAX);
    assert_eq!(bottom.saturating_sub(Fixed::from_raw(1)).raw(), i32::MIN);
    assert_eq!(bottom.saturating_sub(top).raw(), i32::MIN);
    assert_eq!(top.saturating_sub(bottom).raw(), i32::MAX);
}

#[test]
fn multiplication_rounds_down_and_saturates() {
    let half = Fixed::from_ratio(1, 2);
    let three = Fixed::from_int(3);
    assert_eq!(half.saturating_mul(three).raw(), 98304);
    assert_eq!(Fixed::from_raw(1).saturating_mul(half).raw(), 0);
    assert_eq!(Fixed::from_raw(-1).saturating_mul(half).raw(), -1);
    assert_eq!(Fixed::from_int(-2).saturating_mul(three).raw(), -393216);
    let big = Fixed::from_int(30000);
    assert_eq!(big.saturating_mul(big).raw(), i32::MAX);
    assert_eq!(big.saturating_mul(Fixed::from_int(-30000)).raw(), i32::MIN);
    let x = Fixed::from_raw(123456);
    assert_eq!(x.saturating_mul(Fixed::from_int(1)).raw(), 123456);
}

#[test]
fn division_by_whole_number_rounds_down() {
    assert_eq!(Fixed::from_int(32).div_int(256).raw(), 8192);
    assert_eq!(Fixed::from_raw(7).div_int(2).raw(), 3);
    assert_eq!(Fixed::from_raw(-7).div_int(2).raw(), -4);
    assert_eq!(Fixed::from_raw(-8).div_int(2).raw(), -4);
    assert_eq!(Fixed::from_raw(-1).div_int(u32::MAX).raw(), -1);
    assert_eq!(Fixed::from_raw(i32::MIN).div_int(1).raw(), i32::MIN);
    assert_eq!(Fixed::from_raw(i32::MAX).div_int(u32::MAX).raw(), 0);
}

#[test]
fn half_rounds_down() {
    assert_eq!(Fixed::from_raw(9).half().raw(), 4);
    assert_eq!(Fixed::from_raw(-9).half().raw(), -5);
    assert_eq!(Fixed::from_int(1).half().raw(), 32768);
}

#[test]
fn comparisons_follow_raw_values() {
    let a = Fixed::from_raw(10);
    let b = Fixed::from_raw(11);
    assert!(b.gt(a));
    assert!(!a.gt(b));
    assert!(!a.gt(a));
    assert!(a.ge(a));
    assert!(b.ge(a));
    assert!(!a.ge(b));
}
