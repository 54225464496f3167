use inventory_ledger::money::{accumulate, margin_of, narrow, product, unit_cost_of, MARGIN_SCALE};

#[test]
fn product_is_exact_in_128_bits() {
    assert_eq!(product(3, 4), 12);
    assert_eq!(product(-3, 4), -12);
    assert_eq!(product(i64::MAX, i64::MAX), (i64::MAX as i128) * (i64::MAX as i128));
    assert_eq!(product(i64::MIN, i64::MIN), (i64::MIN as i128) * (i64::MIN as i128));
}

#[test]
fn narrow_keeps_what_fits() {
    assert_eq!(narrow(0), Some(0));
    assert_eq!(narrow(i64::MAX as i128), Some(i64::MAX));
    assert_eq!(narrow(i64::MIN as i128), Some(i64::MIN));
    assert_eq!(narrow(i64::MAX as i128 + 1), None);
    assert_eq!(narrow(i64::MIN as i128 - 1), None);
}

#[test]
fn accumulate_adds_or_reports_overflow() {
    assert_eq!(accumulate(5, 7), Some(12));
    assert_eq!(accumulate(5, -7), Some(-2));
    assert_eq!(accumulate(i64::MAX, 0), Some(i64::MAX));
    assert_eq!(accumulate(i64::MAX, 1), None);
    assert_eq!(accumulate(1, i64::MAX as i128), None);
}

#[test]
fn unit_cost_divides_toward_zero() {
    assert_eq!(unit_cost_of(20_000_000, 10), 2_000_000);
    assert_eq!(unit_cost_of(32_500_000, 15), 2_166_666);
    assert_eq!(unit_cost_of(7, 2), 3);
    assert_eq!(unit_cost_of(0, 5), 0);
    assert_eq!(unit_cost_of(5, 0), 0);
}

#[test]
fn margin_is_profit_over_price_in_parts_per_million() {
    assert_eq!(MARGIN_SCALE, 1_000_000);
    assert_eq!(margin_of(5_666_668, 10_000_000), Some(566_666));
    assert_eq!(margin_of(10, 10), Some(1_000_000));
    assert_eq!(margin_of(0, 10), Some(0));
    assert_eq!(margin_of(1, 3), Some(333_333));
    assert_eq!(margin_of(-1, 3), Some(-333_333));
    assert_eq!(margin_of(-30, 10), Some(-3_000_000));
}

#[test]
fn margin_without_a_price_is_zero() {
    assert_eq!(margin_of(5, 0), Some(0));
    assert_eq!(margin_of(-5, 0), Some(0));
    assert_eq!(margin_of(5, -1), Some(0));
}

#[test]
fn margin_beyond_the_column_range_is_reported() {
    assert_eq!(margin_of(-i64::MAX, 1), None);
    assert_eq!(margin_of(i64::MIN, 1), None);
    assert_eq!(margin_of(i64::MAX, i64::MAX), Some(1_000_000));
}
