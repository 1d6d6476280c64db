use leafs::fixed::{add_fixed, mul_fixed, sub_fixed, UNIT};

#[test]
fn product_of_fixed_values() {
    assert_eq!(mul_fixed(3 * UNIT / 2, 2 * UNIT), 3 * UNIT);
    assert_eq!(mul_fixed(600_000, 1_060_000), 636_000);
    assert_eq!(mul_fixed(-3, UNIT / 2), -2);
    assert_eq!(mul_fixed(0, i64::MAX), 0);
}

#[test]
fn saturating_bounds() {
    assert_eq!(mul_fixed(i64::MAX, i64::MAX), i64::MAX);
    assert_eq!(mul_fixed(i64::MIN, i64::MAX), i64::MIN);
    assert_eq!(add_fixed(i64::MAX, 1), i64::MAX);
    assert_eq!(add_fixed(i64::MIN, -1), i64::MIN);
    assert_eq!(add_fixed(2, 3), 5);
    assert_eq!(sub_fixed(i64::MIN, 1), i64::MIN);
    assert_eq!(sub_fixed(i64::MAX, -1), i64::MAX);
    assert_eq!(sub_fixed(2, 3), -1);
}
