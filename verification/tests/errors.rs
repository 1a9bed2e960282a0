//! Inputs on which each operation reports an absent result.

use stable_curve::asset::AssetInfo;
use stable_curve::curve::Curve;

#[test]
fn zero_amplification_has_no_invariant() {
    let c = Curve { amp: 0, fee_numerator: 4 };
    assert_eq!(c.get_d(&[1u128, 2, 3], None), None);
}

#[test]
fn balance_sum_overflow_is_absent() {
    let c = Curve { amp: 2000, fee_numerator: 4 };
    assert_eq!(c.get_d(&[u128::MAX, u128::MAX], None), None);
}

#[test]
fn scaled_balance_overflow_is_absent() {
    // the sum fits, but one balance times the coin count does not
    let c = Curve { amp: 2000, fee_numerator: 4 };
    assert_eq!(c.get_d(&[u128::MAX / 2, 1, 1], None), None);
}

#[test]
fn virtual_price_of_empty_supply_is_absent() {
    let c = Curve { amp: 2000, fee_numerator: 4 };
    let balances = vec![1000000u128, 1000000, 1000000];
    assert_eq!(c.get_virtual_price(&balances, 0, 6), None);
}

#[test]
fn virtual_price_precision_overflow_is_absent() {
    let c = Curve { amp: 2000, fee_numerator: 4 };
    let balances = vec![1000000u128, 1000000, 1000000];
    assert_eq!(c.get_virtual_price(&balances, 1000, 39), None);
}

#[test]
fn deposit_without_value_added_is_absent() {
    let c = Curve { amp: 2000, fee_numerator: 4 };
    let balances = vec![1000000u128, 1000000, 1000000];
    assert_eq!(c.deposit(&balances, &balances, 500), None);
    assert_eq!(c.deposit(&[0, 0, 0], &[0, 0, 0], 0), None);
}

#[test]
fn fee_above_denominator_swallows_the_swap() {
    let c = Curve { amp: 2000, fee_numerator: 20000 };
    let balances = vec![1511922780182839u128, 1932395124083698, 1724082092237124];
    assert_eq!(c.exchange(0, 1, 456739867162, &balances), None);
}

#[test]
fn reverse_exchange_at_full_fee_is_absent() {
    let c = Curve { amp: 2000, fee_numerator: 10000 };
    let balances = vec![1511922780182839u128, 1932395124083698, 1724082092237124];
    assert_eq!(c.reverse_exchange(0, 1, 1000, &balances), None);
}

#[test]
fn reverse_exchange_above_full_fee_is_absent() {
    let c = Curve { amp: 2000, fee_numerator: 20000 };
    let balances = vec![1511922780182839u128, 1932395124083698, 1724082092237124];
    assert_eq!(c.reverse_exchange(0, 1, 1000, &balances), None);
}

#[test]
fn remove_balanced_from_empty_supply_is_absent() {
    assert_eq!(Curve::remove_balanced_liquidity(&[100u128, 100], 10, 0), None);
}

#[test]
fn remove_single_burning_more_than_supply_is_absent() {
    let c = Curve { amp: 2000, fee_numerator: 4 };
    let balances = vec![1511922780182839u128, 1932395124083698, 1724082092237124];
    assert_eq!(c.remove_liquidity_single_token(&balances, 100, 2, 50), None);
}

#[test]
fn asset_info_kinds_and_equality() {
    let native = AssetInfo::NativeToken { denom: "uusd".to_string() };
    let token = AssetInfo::Token { contract_addr: "asset0000".to_string() };
    assert!(native.is_native_token());
    assert!(!token.is_native_token());
    assert!(native.equal(&AssetInfo::NativeToken { denom: "uusd".to_string() }));
    assert!(!native.equal(&AssetInfo::NativeToken { denom: "uluna".to_string() }));
    assert!(!native.equal(&token));
    assert!(token.equal(&AssetInfo::Token { contract_addr: "asset0000".to_string() }));
    assert!(!token.equal(&AssetInfo::Token { contract_addr: "asset0001".to_string() }));
}
