use irontrade::assets::AssetPair;
use irontrade::rational::Rational;

fn rat(n: i64, d: i64) -> Rational {
    Rational::new(n, d).unwrap()
}

#[test]
fn asset_pair_round_trips_well_formed_strings() {
    for s in ["GBP/USD", "A/B", "BTC/USDT", "X/", "/Y", "A/B/C"] {
        let parsed = AssetPair::from_str(s).unwrap();
        assert_eq!(parsed.to_string(), s);
    }
}

#[test]
fn asset_pair_splits_at_first_slash() {
    let p = AssetPair::from_str("GBP/USD").unwrap();
    assert_eq!(p.quantity_asset, "GBP");
    assert_eq!(p.notional_asset, "USD");

    let q = AssetPair::from_str("A/B/C").unwrap();
    assert_eq!(q.quantity_asset, "A");
    assert_eq!(q.notional_asset, "B/C");
}

#[test]
fn asset_pair_without_slash_is_rejected() {
    assert!(AssetPair::from_str("GBPUSD").is_none());
    assert!(AssetPair::from_str("").is_none());
}

#[test]
fn rational_arithmetic_is_exact() {
    let third = rat(1, 3);
    let sixth = rat(1, 6);
    assert_eq!(third.checked_add(&sixth).unwrap(), rat(1, 2));
    assert_eq!(third.checked_sub(&sixth).unwrap(), rat(1, 6));
    assert_eq!(third.checked_mul(&sixth).unwrap(), rat(1, 18));
    assert_eq!(third.checked_div(&sixth).unwrap(), Rational::from_int(2));
    assert_eq!(rat(141, 10).checked_sub(&rat(131, 10)).unwrap(), Rational::from_int(1));
}

#[test]
fn rational_equality_ignores_representation() {
    assert_eq!(rat(1, 2), rat(2, 4));
    assert_ne!(rat(1, 2), rat(2, 5));
    assert_eq!(rat(-3, 6), rat(-1, 2));
}

#[test]
fn rational_division_by_zero_fails() {
    assert!(rat(1, 2).checked_div(&Rational::from_int(0)).is_none());
}

#[test]
fn rational_overflow_is_reported() {
    let big = Rational::from_int(i64::MAX);
    assert!(big.checked_add(&big).is_none());
    assert!(big.checked_mul(&big).is_none());
}

#[test]
fn rational_rejects_invalid_fractions() {
    assert!(Rational::new(1, 0).is_none());
    assert!(Rational::new(1, -2).is_none());
    assert!(Rational::new(i64::MIN, 1).is_none());
}

#[test]
fn rational_ordering_by_value() {
    assert!(rat(129, 100).lt(&rat(13, 10)));
    assert!(!rat(131, 100).lt(&rat(13, 10)));
    assert!(rat(13, 10).le(&rat(13, 10)));
    assert!(rat(-1, 2).lt(&rat(1, 1000)));
}
