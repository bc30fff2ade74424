use token_users::model::DisplayAmount;

fn samples() -> Vec<f64> {
    vec![
        f64::NEG_INFINITY,
        f64::MIN,
        -7.0,
        -1.0,
        -f64::MIN_POSITIVE,
        -5e-324,
        -0.0,
        0.0,
        5e-324,
        f64::MIN_POSITIVE,
        1.0,
        2.5,
        3.0,
        5.0,
        7.0,
        f64::MAX,
        f64::INFINITY,
        f64::NAN,
        -f64::NAN,
        f64::from_bits(0x7FF0_0000_0000_0001),
        f64::from_bits(0xFFFF_FFFF_FFFF_FFFF),
    ]
}

#[test]
fn above_zero_is_greater_than_zero() {
    for value in samples() {
        let amount = DisplayAmount { bits: value.to_bits() };
        assert_eq!(amount.is_above_zero(), value > 0.0, "{value}");
    }
}

#[test]
fn zero_and_negative_and_nan_are_not_above_zero() {
    assert!(!DisplayAmount { bits: 0.0f64.to_bits() }.is_above_zero());
    assert!(!DisplayAmount { bits: (-0.0f64).to_bits() }.is_above_zero());
    assert!(!DisplayAmount { bits: (-2.5f64).to_bits() }.is_above_zero());
    assert!(!DisplayAmount { bits: f64::NAN.to_bits() }.is_above_zero());
    assert!(DisplayAmount { bits: 2.5f64.to_bits() }.is_above_zero());
    assert!(DisplayAmount { bits: f64::INFINITY.to_bits() }.is_above_zero());
    assert!(DisplayAmount { bits: 1 }.is_above_zero());
}

#[test]
fn order_key_orders_as_the_total_order_does() {
    for a in samples() {
        for b in samples() {
            let key_a = DisplayAmount { bits: a.to_bits() }.order_key();
            let key_b = DisplayAmount { bits: b.to_bits() }.order_key();
            let by_key = (key_a < key_b, key_a == key_b);
            let by_total_order = (a.total_cmp(&b).is_lt(), a.total_cmp(&b).is_eq());
            assert_eq!(by_key, by_total_order, "{a} {b}");
        }
    }
}

#[test]
fn order_key_at_the_edges() {
    assert_eq!(DisplayAmount { bits: 0 }.order_key(), 0);
    assert_eq!(DisplayAmount { bits: 0x8000_0000_0000_0000 }.order_key(), -1);
    assert_eq!(DisplayAmount { bits: 0x7FFF_FFFF_FFFF_FFFF }.order_key(), i64::MAX);
    assert_eq!(DisplayAmount { bits: 0xFFFF_FFFF_FFFF_FFFF }.order_key(), i64::MIN);
    assert_eq!(DisplayAmount { bits: 1.0f64.to_bits() }.order_key(), 0x3FF0_0000_0000_0000);
}
