//! Golden-vector tests of the invariant and balance solvers.

use stable_curve::curve::Curve;

const AMPLIFICATION_COEFFICIENT: u64 = 2000;
const TRADING_FEE: u64 = 4;

fn curve() -> Curve {
    Curve { amp: AMPLIFICATION_COEFFICIENT, fee_numerator: TRADING_FEE }
}

#[test]
fn test_get_d() {
    let c = curve();
    assert_eq!(c.get_d(&[0u128, 0u128, 0u128], None), Some(0));

    let amounts = vec![1511922780182839u128, 1932395124083698, 1724082092237124];
    assert_eq!(c.get_d(&amounts, None), Some(5168386971290620));
}

#[test]
fn test_check_get_y() {
    let c = curve();
    let amounts = vec![1511922780182839u128, 1932395124083698, 1224082092237124];
    let x: u128 = 1128721179791137;
    assert_eq!(c.get_y(0, 1, x, &amounts), Some(2315693283168425));
}

#[test]
fn test_get_y_d() {
    let c = curve();
    let amounts = vec![1511922780182839u128, 1932395124083698, 1224082092237124];
    let d = c.get_d(&amounts, None).unwrap();
    assert_eq!(d, 4668358260568429);
    assert_eq!(c.get_y_d(0, &amounts, d), Some(1511922780182839));
}

#[test]
fn test_curve_math_with_random_inputs() {
    // a fixed point of the domain the engine is exercised over
    let c = Curve { amp: 977, fee_numerator: 40000007 };
    let amounts = vec![200000000000000u128, 350000000000000, 170000000000000];
    assert_eq!(c.get_d(&amounts, None), Some(719960332499865));
    assert_eq!(c.get_y(0, 1, 100000000000000, &amounts), Some(450158346063482));
    assert_eq!(c.get_y_d(0, &amounts, 100000000000000), Some(50561369));
}

#[test]
fn test_check_get_withdrawal_amount_for_removing_one_token() {
    let c = curve();
    let amounts = vec![1511922780182839u128, 1932395124083698, 1224082092237124];
    let lp_total_supply: u64 = 411922780182839;
    let unmint_amount: u64 = 175849489;
    let result = c
        .remove_liquidity_single_token(&amounts, unmint_amount, 2, lp_total_supply)
        .unwrap();
    assert_eq!(result, 1992357406);
}

#[test]
fn test_get_mint_amount_for_adding_liquidity_with_random_input() {
    // a fixed point of the domain the engine is exercised over
    let c = curve();
    let old = vec![500000000000000u128, 600000000000000, 700000000000000];
    let lp1 = c.deposit(&[0, 0, 0], &old, 0).unwrap();
    assert_eq!(lp1, 1799991433018058);
    let new = vec![old[0] + 1000000000000, old[1] + 2000000000000, old[2] + 3000000000000];
    assert_eq!(c.deposit(&old, &new, lp1), Some(5999720180460));
}

#[test]
fn test_exchange_with_0() {
    let c = curve();
    let in_amount: u64 = 0;
    let amount_a: u128 = 1_000_000;
    // the zero-to-one case only shows when the counter-balances far exceed
    // the paid coin's balance
    let amount_b: u128 = 8_000_000;
    let amount_c: u128 = 8_000_000;
    let balances = vec![amount_a, amount_b, amount_c];
    assert_eq!(c.exchange(0, 1, in_amount, &balances), Some(0));
}

#[test]
fn test_get_exchange() {
    let c = curve();
    assert_eq!(c.get_d(&[0u128, 0u128, 0u128], None), Some(0));
    let amounts = vec![1511922780182839u128, 1932395124083698, 1724082092237124];
    let in_amount: u64 = 456739867162;
    assert_eq!(c.exchange(0, 1, in_amount, &amounts), Some(456614534183));
}

#[test]
fn test_exchange_with_random_inputs() {
    // a fixed point of the domain the engine is exercised over
    let c = curve();
    let balances = vec![400000000000000u128, 500000000000000, 600000000000000];
    assert_eq!(c.exchange(1, 2, 700000000000, &balances), Some(699780272577));
}

#[test]
fn test_get_virtual_price() {
    let precision_factor: u8 = 6;
    let c = curve();
    let balances = vec![1000000000000u128, 1000000000000, 1000000000000];
    let lp_token_total = c.deposit(&[0, 0, 0], &balances, 0).unwrap();
    let virtual_price = c.get_virtual_price(&balances, lp_token_total, precision_factor);
    assert_eq!(virtual_price.unwrap(), 10u64.pow(precision_factor as u32));
}

#[test]
fn test_get_virtual_price_with_precision_multipliers() {
    let precision_factor: u8 = 9;
    let c = curve();
    let balances = vec![1000000_000000u128, 10000000_00000, 1000000_000000000];
    let lp_token_total = c.deposit(&[0, 0, 0], &balances, 0).unwrap();
    assert_eq!(lp_token_total, 526773550923419);
    let virtual_price = c.get_virtual_price(&balances, lp_token_total, precision_factor);
    assert_eq!(virtual_price.unwrap(), 10u64.pow(precision_factor as u32));
}

#[test]
fn test_curve_exchange() {
    // a fixed point of the domain the engine is exercised over
    let c = Curve { amp: 85, fee_numerator: 0 };
    let balances = vec![123456789012345u128, 23456789012, 3456789012345];
    assert_eq!(c.exchange(2, 0, 1000000, &balances), Some(14529490));
}

#[test]
fn test_curve_get_mint_amount_for_adding_liquidity() {
    // a fixed point of the domain the engine is exercised over
    let c = Curve { amp: 1234, fee_numerator: 0 };
    let old = vec![100000000000000u128, 200000000000000, 300000000000000];
    let new = vec![old[0] + 10000000000, old[1] + 20000000000, old[2] + 30000000000];
    assert_eq!(c.deposit(&old, &new, 500000000000000), Some(49999999999));
}

#[test]
fn test_curve_get_withdrawal_amounts_for_removing_liquidity() {
    // a fixed point of the domain the engine is exercised over
    let old = vec![1000000000000000u128, 2000000000000000, 3000000000000000];
    let amounts = Curve::remove_balanced_liquidity(&old, 123456, 1000000000000000).unwrap();
    assert_eq!(amounts, vec![123456u128, 246912, 370368]);
}

#[test]
fn test_curve_get_withdrawal_amount_for_removing_one_token() {
    // a fixed point of the domain the engine is exercised over
    let c = Curve { amp: 321, fee_numerator: 0 };
    let balances = vec![500000000000000u128, 600000000000000, 700000000000000];
    assert_eq!(
        c.remove_liquidity_single_token(&balances, 10000000000, 1, 900000000000000),
        Some(19999999289)
    );
}
