use pyro_model::health::Health;
use pyro_model::units::{add_sat, max_i64, min_i64, mul_fixed, saturate, sub_sat};

#[test]
fn saturate_limits_to_i64() {
    assert_eq!(saturate(5), 5);
    assert_eq!(saturate(i64::MAX as i128 + 10), i64::MAX);
    assert_eq!(saturate(i64::MIN as i128 - 10), i64::MIN);
}

#[test]
fn sums_saturate() {
    assert_eq!(add_sat(2, 3), 5);
    assert_eq!(add_sat(i64::MAX, 1), i64::MAX);
    assert_eq!(sub_sat(i64::MIN, 1), i64::MIN);
    assert_eq!(sub_sat(10, 25), -15);
}

#[test]
fn fixed_point_products_round_toward_zero() {
    // 1.5 * 2.0 = 3.0
    assert_eq!(mul_fixed(1500, 2000), 3000);
    // 0.001 * 0.5 = 0.0005, which rounds to zero
    assert_eq!(mul_fixed(1, 500), 0);
    // -1.5 * 1.001 = -1.5015, rounded toward zero
    assert_eq!(mul_fixed(-1500, 1001), -1501);
    assert_eq!(mul_fixed(i64::MAX, i64::MAX), i64::MAX);
}

#[test]
fn max_and_min() {
    assert_eq!(max_i64(-3, 4), 4);
    assert_eq!(min_i64(-3, 4), -3);
}

#[test]
fn health_starts_full() {
    let h = Health::new(5000);
    assert_eq!(h, Health { value: 5000, max: 5000 });
    assert!(!h.is_dead());
}

#[test]
fn damage_stops_at_zero() {
    let mut h = Health::new(5000);
    h.damage(2000);
    assert_eq!(h.value, 3000);
    h.damage(10000);
    assert_eq!(h.value, 0);
    assert!(h.is_dead());
}

#[test]
fn heal_stops_at_max() {
    let mut h = Health { value: 1000, max: 5000 };
    h.heal(2500);
    assert_eq!(h.value, 3500);
    h.heal(i64::MAX);
    assert_eq!(h.value, 5000);
}

#[test]
fn change_with_negative_max_stays_at_zero() {
    let mut h = Health { value: 0, max: -10 };
    h.change(100);
    assert_eq!(h.value, 0);
}

#[test]
fn ratio_is_the_share_left() {
    let h = Health { value: 1500, max: 6000 };
    assert_eq!(h.ratio(), 250);
    assert_eq!(Health::new(7).ratio(), 1000);
}
