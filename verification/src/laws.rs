//! General properties of the engine, stated and proved over the model.

use vstd::prelude::*;

use crate::model::{
    d_step, fee_den, red_upto, spec_deposit, spec_exchange, spec_fee2, spec_get_d, spec_get_y,
    spec_get_y_d, spec_remove_single, sum,
};

verus! {

proof fn lemma_sum_zero(s: Seq<int>)
    requires
        forall|k: int| 0 <= k < s.len() ==> s[k] == 0,
    ensures
        sum(s) == 0,
    decreases s.len(),
{
    if s.len() > 0 {
        lemma_sum_zero(s.drop_last());
    }
}

/// An all-zero balance vector has invariant exactly zero, whatever the coin
/// count, the amplification and the suggested starting point: the solver
/// takes its empty-pool fast path and never iterates.
pub proof fn lemma_zero_balances_zero_d(amp: int, amounts: Seq<int>, d_suggest: Option<int>)
    requires
        forall|k: int| 0 <= k < amounts.len() ==> amounts[k] == 0,
    ensures
        spec_get_d(amp, amounts, d_suggest) == Some(0int),
{
    lemma_sum_zero(amounts);
}

/// A deposit into an empty pool (no shares outstanding) mints the new
/// invariant itself, denominating shares one-to-one with invariant units.
pub proof fn lemma_first_deposit_mints_invariant(
    amp: int,
    fee: int,
    old: Seq<int>,
    new: Seq<int>,
)
    requires
        old.len() == new.len(),
        spec_get_d(amp, old, None) is Some,
        spec_get_d(amp, new, None) is Some,
        spec_get_d(amp, new, None)->0 > spec_get_d(amp, old, None)->0,
        spec_get_d(amp, new, None)->0 < 0x10000000000000000,
    ensures
        spec_deposit(amp, fee, old, new, 0) == Some(spec_get_d(amp, new, None)->0),
{
}

/// The rounding safeguard of a swap: whenever an exchange succeeds, what it
/// pays out is at least one unit less than the invariant-implied amount, so
/// no trade can extract value past the curve.
pub proof fn lemma_exchange_rounding_safeguard(
    amp: int,
    fee: int,
    i: int,
    j: int,
    dx: int,
    bals: Seq<int>,
)
    requires
        fee >= 0,
        spec_exchange(amp, fee, i, j, dx, bals) is Some,
    ensures
        spec_get_y(amp, i, j, bals[i] + dx, bals) is Some,
        spec_exchange(amp, fee, i, j, dx, bals)->0 <= bals[j] - spec_get_y(
            amp,
            i,
            j,
            bals[i] + dx,
            bals,
        )->0 - 1,
{
    let y = spec_get_y(amp, i, j, bals[i] + dx, bals)->0;
    let gross = bals[j] - y - 1;
    let cut = gross * fee / fee_den();
    assert(gross * fee >= 0) by (nonlinear_arith)
        requires
            gross >= 0,
            fee >= 0,
    ;
    assert(cut >= 0);
}

/// The rounding safeguard of a single-sided withdrawal: the amount paid out
/// is strictly less than the fee-reduced balance solver's implied amount.
pub proof fn lemma_remove_single_rounding_safeguard(
    amp: int,
    fee: int,
    old: Seq<int>,
    unmint: int,
    i: int,
    lp: int,
)
    requires
        spec_remove_single(amp, fee, old, unmint, i, lp) is Some,
    ensures
        ({
            let n = old.len() as int;
            let d0 = spec_get_d(amp, old, None)->0;
            let d1 = d0 - unmint * d0 / lp;
            let new_y = spec_get_y_d(amp, i, old, d1)->0;
            let red = red_upto(spec_fee2(fee, n), d0, d1, new_y, i, old, n)->0;
            spec_remove_single(amp, fee, old, unmint, i, lp)->0 < red[i] - spec_get_y_d(
                amp,
                i,
                red,
                d1,
            )->0
        }),
{
}

/// What the bounded Newton iteration can promise of a returned invariant:
/// either the stopping rule fired — the result is one Newton step away from
/// a predecessor it agrees with to within one unit, so re-deriving the
/// fixed-point equation moves it by at most one — or the iteration budget
/// was exhausted and the result is simply the final iterate.
pub open spec fn d_converged(amounts: Seq<int>, ann: int, sum_x: int, n: int, d_res: int) -> bool {
    exists|dp: int|
        #[trigger] d_step(amounts, ann, sum_x, n, dp) == Some(d_res) && -1 <= d_res - dp <= 1
}

/// The Newton iteration run without its stopping rule.
pub open spec fn d_iter(
    amounts: Seq<int>,
    ann: int,
    sum_x: int,
    n: int,
    d: int,
    steps: nat,
) -> Option<int>
    decreases steps,
{
    if steps == 0 {
        Some(d)
    } else {
        match d_step(amounts, ann, sum_x, n, d) {
            None => None,
            Some(d2) => d_iter(amounts, ann, sum_x, n, d2, (steps - 1) as nat),
        }
    }
}

/// Every invariant the bounded iteration returns is either converged in the
/// above sense or the full iteration budget's final iterate.
pub proof fn lemma_d_converged_or_capped(
    amounts: Seq<int>,
    ann: int,
    sum_x: int,
    n: int,
    d: int,
    left: nat,
)
    requires
        crate::model::d_loop(amounts, ann, sum_x, n, d, left) is Some,
    ensures
        d_converged(amounts, ann, sum_x, n, crate::model::d_loop(amounts, ann, sum_x, n, d, left)->0)
            || crate::model::d_loop(amounts, ann, sum_x, n, d, left) == d_iter(
            amounts,
            ann,
            sum_x,
            n,
            d,
            left,
        ),
    decreases left,
{
    if left > 0 {
        match d_step(amounts, ann, sum_x, n, d) {
            None => {},
            Some(d2) => {
                if -1 <= d2 - d <= 1 {
                    assert(d_step(amounts, ann, sum_x, n, d) == Some(d2));
                } else {
                    lemma_d_converged_or_capped(amounts, ann, sum_x, n, d2, (left - 1) as nat);
                }
            },
        }
    }
}

/// The same, at the level of the solver: every invariant it returns for a
/// pool with funds either satisfies the one-unit stopping rule or is the
/// final iterate of the full iteration budget.
pub proof fn lemma_solver_converged_or_capped(amp: int, amounts: Seq<int>, d_suggest: Option<int>)
    requires
        spec_get_d(amp, amounts, d_suggest) is Some,
        sum(amounts) != 0,
    ensures
        ({
            let n = amounts.len() as int;
            let s = sum(amounts);
            let d0 = match d_suggest {
                Some(v) => v,
                None => s,
            };
            d_converged(amounts, amp * n, s, n, spec_get_d(amp, amounts, d_suggest)->0)
                || spec_get_d(amp, amounts, d_suggest) == d_iter(
                amounts,
                amp * n,
                s,
                n,
                d0,
                crate::model::iter_cap(),
            )
        }),
{
    let n = amounts.len() as int;
    let s = sum(amounts);
    let d0 = match d_suggest {
        Some(v) => v,
        None => s,
    };
    lemma_d_converged_or_capped(amounts, amp * n, s, n, d0, crate::model::iter_cap());
}

} // verus!

