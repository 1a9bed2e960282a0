//! Scenario tests of the engine's behaviour across operations.

use stable_curve::curve::Curve;

#[test]
fn zero_balance_fast_path_any_coin_count() {
    let c = Curve { amp: 2000, fee_numerator: 4 };
    for n in 1..=8usize {
        let balances = vec![0u128; n];
        assert_eq!(c.get_d(&balances, None), Some(0));
    }
    assert_eq!(c.get_d(&[], None), Some(0));
}

#[test]
fn invariant_closure_residual_within_one() {
    // restarting the solver at its own answer moves it by at most one unit
    let c = Curve { amp: 2000, fee_numerator: 4 };
    let balances = vec![1511922780182839u128, 1932395124083698, 1724082092237124];
    let d = c.get_d(&balances, None).unwrap();
    let d2 = c.get_d(&balances, Some(d)).unwrap();
    let residual = if d2 > d { d2 - d } else { d - d2 };
    assert!(residual <= 1);
    assert_eq!(d2, d);
}

#[test]
fn swap_withdrawal_consistency() {
    // solving a coin's balance back from the current invariant reproduces it
    let c = Curve { amp: 2000, fee_numerator: 4 };
    let balances = vec![1511922780182839u128, 1932395124083698, 1224082092237124];
    let d = c.get_d(&balances, None).unwrap();
    for i in 0..3u8 {
        let y = c.get_y_d(i, &balances, d).unwrap();
        let b = balances[i as usize];
        let delta = if y > b { y - b } else { b - y };
        assert!(delta <= 1);
    }

    let c2 = Curve { amp: 50, fee_numerator: 0 };
    let balances2 = vec![123456789u128, 987654321, 555555555];
    let d2 = c2.get_d(&balances2, None).unwrap();
    assert_eq!(d2, 1650613772);
    for i in 0..3u8 {
        let y = c2.get_y_d(i, &balances2, d2).unwrap();
        let b = balances2[i as usize];
        let delta = if y > b { y - b } else { b - y };
        assert!(delta <= 1);
    }
}

#[test]
fn fee_free_deposit_withdraw_round_trip() {
    let c = Curve { amp: 100, fee_numerator: 0 };
    let base = vec![1000000000000u128; 3];
    let lp0 = c.deposit(&[0, 0, 0], &base, 0).unwrap();
    assert_eq!(lp0, 3000000000000);

    let x: u128 = 5000000000;
    let new = vec![base[0] + x, base[1] + x, base[2] + x];
    let mint = c.deposit(&base, &new, lp0).unwrap();
    assert_eq!(mint, 15000000000);

    let out = Curve::remove_balanced_liquidity(&new, mint, lp0 + mint).unwrap();
    let total: u128 = out.iter().sum();
    assert_eq!(total, 3 * x);
    assert_eq!(out, vec![x, x, x]);
}

#[test]
fn first_deposit_bootstrap() {
    let c = Curve { amp: 2000, fee_numerator: 4 };
    let balances = vec![1000000000000u128, 1000000000000, 1000000000000];
    let d = c.get_d(&balances, None).unwrap();
    let mint = c.deposit(&[0, 0, 0], &balances, 0).unwrap();
    assert_eq!(mint as u128, d);
    let p: u8 = 6;
    assert_eq!(c.get_virtual_price(&balances, mint, p), Some(10u64.pow(p as u32)));
}

#[test]
fn swap_output_non_decreasing_in_input() {
    let c = Curve { amp: 2000, fee_numerator: 4 };
    let balances = vec![1511922780182839u128, 1932395124083698, 1724082092237124];
    let inputs: [u64; 4] = [1000000000, 10000000000, 100000000000, 456739867162];
    let expected: [u128; 4] = [999725736, 9997257338, 99972570533, 456614534183];
    let mut last: u128 = 0;
    for (dx, want) in inputs.iter().zip(expected.iter()) {
        let out = c.exchange(0, 1, *dx, &balances).unwrap();
        assert_eq!(out, *want);
        assert!(out >= last);
        last = out;
    }
}

#[test]
fn rounding_safeguard_on_exchange() {
    // the payout stays at least one unit below the invariant-implied amount
    let c = Curve { amp: 2000, fee_numerator: 4 };
    let balances = vec![1511922780182839u128, 1932395124083698, 1724082092237124];
    let dx: u64 = 100000000000;
    let x = balances[0] + dx as u128;
    let y = c.get_y(0, 1, x, &balances).unwrap();
    assert_eq!(y, 1932295111508134);
    let implied = balances[1] - y;
    let out = c.exchange(0, 1, dx, &balances).unwrap();
    assert_eq!(out, 99972570533);
    assert!(out <= implied - 1);
}

#[test]
fn reverse_exchange_grosses_up_the_fee() {
    let c = Curve { amp: 2000, fee_numerator: 4 };
    let balances = vec![1511922780182839u128, 1932395124083698, 1724082092237124];
    let dx = c.reverse_exchange(0, 1, 456614534183, &balances).unwrap();
    assert_eq!(dx, 456854778620);
}
