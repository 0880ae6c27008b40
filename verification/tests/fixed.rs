use softraster::fixed::{clamp_to, floor_div, SUBPIXEL, UNIT};

#[test]
fn scales() {
    assert_eq!(UNIT, 1000);
    assert_eq!(SUBPIXEL, 256);
}

#[test]
fn floor_div_rounds_toward_minus_infinity() {
    assert_eq!(floor_div(7, 2), 3);
    assert_eq!(floor_div(-7, 2), -4);
    assert_eq!(floor_div(-8, 2), -4);
    assert_eq!(floor_div(-1, 256), -1);
    assert_eq!(floor_div(0, 256), 0);
    assert_eq!(floor_div(255, 256), 0);
    assert_eq!(floor_div(-256, 256), -1);
    assert_eq!(floor_div(-257, 256), -2);
    assert_eq!(floor_div(i128::MIN, 1), i128::MIN);
    assert_eq!(floor_div(i128::MIN, i128::MAX), -2);
    assert_eq!(floor_div(i128::MAX, i128::MAX), 1);
}

#[test]
fn clamp_to_limits() {
    assert_eq!(clamp_to(5, 0, 10), 5);
    assert_eq!(clamp_to(-5, 0, 10), 0);
    assert_eq!(clamp_to(15, 0, 10), 10);
    assert_eq!(clamp_to(0, 0, 10), 0);
    assert_eq!(clamp_to(10, 0, 10), 10);
}
