//! Mathematical model of the pricing engine.
//!
//! Every executable operation of the engine is specified against a spec
//! function in this module. The model works on unbounded integers; the
//! representation limits of the machine arithmetic appear as explicit
//! cutoffs, so that a model function returns `None` exactly where the
//! engine reports an absent result for overflow, underflow or division
//! by zero.

use vstd::prelude::*;
use crate::wide::{pow128, pow256};

verus! {

/// The trading-fee denominator: fees are quoted in basis points of this.
pub open spec fn fee_den() -> int {
    10000
}

pub open spec fn pow64() -> int {
    0x10000000000000000
}

/// The fixed Newton iteration bound.
pub open spec fn iter_cap() -> nat {
    32
}

/// A balance vector as unbounded integers.
pub open spec fn ints(s: Seq<u128>) -> Seq<int> {
    s.map(|_k: int, v: u128| v as int)
}

pub open spec fn opt_int(r: Option<u128>) -> Option<int> {
    match r {
        Some(v) => Some(v as int),
        None => None,
    }
}

pub open spec fn opt_int64(r: Option<u64>) -> Option<int> {
    match r {
        Some(v) => Some(v as int),
        None => None,
    }
}

pub open spec fn sum(s: Seq<int>) -> int
    decreases s.len(),
{
    if s.len() == 0 {
        0
    } else {
        sum(s.drop_last()) + s.last()
    }
}

pub open spec fn nonneg(s: Seq<int>) -> bool {
    forall|k: int| 0 <= k < s.len() ==> s[k] >= 0
}

pub proof fn lemma_sum_take_succ(s: Seq<int>, k: int)
    requires
        0 <= k < s.len(),
    ensures
        sum(s.take(k + 1)) == sum(s.take(k)) + s[k],
{
    assert(s.take(k + 1).drop_last() =~= s.take(k));
    assert(s.take(k + 1).last() == s[k]);
}

pub proof fn lemma_sum_take_le(s: Seq<int>, k: int)
    requires
        0 <= k <= s.len(),
        nonneg(s),
    ensures
        sum(s.take(k)) <= sum(s),
    decreases s.len() - k,
{
    if k == s.len() {
        assert(s.take(k) =~= s);
    } else {
        lemma_sum_take_succ(s, k);
        lemma_sum_take_le(s, k + 1);
    }
}

pub proof fn lemma_sum_nonneg(s: Seq<int>)
    requires
        nonneg(s),
    ensures
        sum(s) >= 0,
    decreases s.len(),
{
    if s.len() > 0 {
        assert(nonneg(s.drop_last()));
        lemma_sum_nonneg(s.drop_last());
    }
}

// ---------------------------------------------------------------------------
// Invariant solver
// ---------------------------------------------------------------------------

/// Whether every product `balance * n` stays representable in 128 bits.
pub open spec fn scaled_ok(amounts: Seq<int>, n: int) -> bool {
    forall|k: int| 0 <= k < amounts.len() ==> #[trigger] (amounts[k] * n) < pow128()
}

/// Product accumulator of one Newton step, after the first `k` coins:
/// `p <- p * d / (balance * n)`, carried in 256 bits.
pub open spec fn d_prod_upto(amounts: Seq<int>, n: int, d: int, k: int) -> Option<int>
    decreases k,
{
    if k <= 0 {
        Some(d)
    } else {
        match d_prod_upto(amounts, n, d, k - 1) {
            None => None,
            Some(p) => {
                let scaled = amounts[k - 1] * n;
                if p * d >= pow256() {
                    None
                } else if scaled == 0 {
                    None
                } else {
                    Some(p * d / scaled)
                }
            },
        }
    }
}

/// One Newton step for the invariant:
/// `d' = (ann*s + p*n) * d / (d*(ann-1) + p*(n+1))`.
pub open spec fn d_step(amounts: Seq<int>, ann: int, sum_x: int, n: int, d: int) -> Option<int> {
    match d_prod_upto(amounts, n, d, amounts.len() as int) {
        None => None,
        Some(p) => {
            if p * n >= pow256() {
                None
            } else if ann * sum_x + p * n >= pow256() {
                None
            } else if (ann * sum_x + p * n) * d >= pow256() {
                None
            } else {
                let num = (ann * sum_x + p * n) * d;
                if p + p * n >= pow256() {
                    None
                } else if d * (ann - 1) + p + p * n >= pow256() {
                    None
                } else if d * (ann - 1) + p + p * n == 0 {
                    None
                } else {
                    let q = num / (d * (ann - 1) + p + p * n);
                    if q >= pow128() {
                        None
                    } else {
                        Some(q)
                    }
                }
            }
        },
    }
}

/// The bounded Newton iteration: stop once two successive iterates differ
/// by at most one unit, else run `left` more rounds and keep the last value.
pub open spec fn d_loop(amounts: Seq<int>, ann: int, sum_x: int, n: int, d: int, left: nat) -> Option<
    int,
>
    decreases left,
{
    if left == 0 {
        Some(d)
    } else {
        match d_step(amounts, ann, sum_x, n, d) {
            None => None,
            Some(d2) => {
                if -1 <= d2 - d <= 1 {
                    Some(d2)
                } else {
                    d_loop(amounts, ann, sum_x, n, d2, (left - 1) as nat)
                }
            },
        }
    }
}

/// The invariant `D` of a balance vector: zero for an empty pool, else the
/// bounded Newton iteration started from the balance sum or a suggestion.
pub open spec fn spec_get_d(amp: int, amounts: Seq<int>, d_suggest: Option<int>) -> Option<int> {
    let n = amounts.len() as int;
    if sum(amounts) >= pow128() {
        None
    } else if sum(amounts) == 0 {
        Some(0)
    } else if !scaled_ok(amounts, n) {
        None
    } else if amp * n >= pow64() {
        None
    } else if amp * n < 1 {
        None
    } else {
        let ann = amp * n;
        let d0 = match d_suggest {
            Some(v) => v,
            None => sum(amounts),
        };
        d_loop(amounts, ann, sum(amounts), n, d0, iter_cap())
    }
}

// ---------------------------------------------------------------------------
// Balance solver
// ---------------------------------------------------------------------------

/// One coin's contribution to the quadratic coefficients:
/// `s <- s + v` and `c <- c * d / (v * n)`.
pub open spec fn y_acc_step(s: int, c: int, v: int, d: int, n: int) -> Option<(int, int)> {
    if s + v >= pow128() {
        None
    } else if v * n >= pow128() {
        None
    } else if c * d >= pow256() {
        None
    } else if v * n == 0 {
        None
    } else {
        Some((s + v, c * d / (v * n)))
    }
}

/// Coefficient accumulation for the swap variant over the first `k` coins:
/// coin `i` contributes the new balance `x`, coin `j` is the unknown and is
/// skipped (unless `i == j`, where the replacement wins).
pub open spec fn y_acc_swap(
    i: int,
    j: int,
    x: int,
    bals: Seq<int>,
    d: int,
    n: int,
    k: int,
) -> Option<(int, int)>
    decreases k,
{
    if k <= 0 {
        Some((0, d))
    } else {
        match y_acc_swap(i, j, x, bals, d, n, k - 1) {
            None => None,
            Some((s, c)) => {
                if k - 1 == i {
                    y_acc_step(s, c, x, d, n)
                } else if k - 1 == j {
                    Some((s, c))
                } else {
                    y_acc_step(s, c, bals[k - 1], d, n)
                }
            },
        }
    }
}

/// Coefficient accumulation for the withdrawal variant: coin `i` is the
/// unknown and is skipped, all others contribute their current balance.
pub open spec fn y_acc_wd(i: int, bals: Seq<int>, d: int, n: int, k: int) -> Option<(int, int)>
    decreases k,
{
    if k <= 0 {
        Some((0, d))
    } else {
        match y_acc_wd(i, bals, d, n, k - 1) {
            None => None,
            Some((s, c)) => {
                if k - 1 == i {
                    Some((s, c))
                } else {
                    y_acc_step(s, c, bals[k - 1], d, n)
                }
            },
        }
    }
}

/// One Newton step on the quadratic `y^2 + b*y = c`:
/// `y' = (y^2 + c) / (2y + b - d)`.
pub open spec fn y_step(c: int, b: int, d: int, y: int) -> Option<int> {
    if y * y >= pow128() {
        None
    } else if c >= pow128() {
        None
    } else if y * y + c >= pow128() {
        None
    } else if 2 * y >= pow128() {
        None
    } else if 2 * y + b >= pow128() {
        None
    } else if 2 * y + b < d {
        None
    } else if 2 * y + b - d == 0 {
        None
    } else {
        Some((y * y + c) / (2 * y + b - d))
    }
}

pub open spec fn y_loop(c: int, b: int, d: int, y: int, left: nat) -> Option<int>
    decreases left,
{
    if left == 0 {
        Some(y)
    } else {
        match y_step(c, b, d, y) {
            None => None,
            Some(y2) => {
                if -1 <= y2 - y <= 1 {
                    Some(y2)
                } else {
                    y_loop(c, b, d, y2, (left - 1) as nat)
                }
            },
        }
    }
}

/// Shared tail of both balance-solver variants: finish the coefficients and
/// run the bounded quadratic iteration from `y = d`.
pub open spec fn y_tail(ann: int, n: int, s: int, c1: int, d: int) -> Option<int> {
    if ann * n >= pow64() {
        None
    } else if c1 * d >= pow256() {
        None
    } else if ann * n == 0 {
        None
    } else {
        let c = c1 * d / (ann * n);
        let q = d / ann;
        if s + q >= pow128() {
            None
        } else {
            y_loop(c, s + q, d, d, iter_cap())
        }
    }
}

/// The swap variant: the new balance of coin `j` after coin `i` moves to `x`,
/// at the invariant of the current balances.
pub open spec fn spec_get_y(amp: int, i: int, j: int, x: int, bals: Seq<int>) -> Option<int> {
    let n = bals.len() as int;
    match spec_get_d(amp, bals, None) {
        None => None,
        Some(d) => {
            if amp * n >= pow64() {
                None
            } else {
                let ann = amp * n;
                match y_acc_swap(i, j, x, bals, d, n, n) {
                    None => None,
                    Some((s, c1)) => y_tail(ann, n, s, c1, d),
                }
            }
        },
    }
}

/// The withdrawal variant: the balance coin `i` must hold for the pool to
/// satisfy the target invariant `d`, all other balances unchanged.
pub open spec fn spec_get_y_d(amp: int, i: int, bals: Seq<int>, d: int) -> Option<int> {
    let n = bals.len() as int;
    if amp * n >= pow64() {
        None
    } else {
        let ann = amp * n;
        match y_acc_wd(i, bals, d, n, n) {
            None => None,
            Some((s, c1)) => y_tail(ann, n, s, c1, d),
        }
    }
}

// ---------------------------------------------------------------------------
// Swap engine
// ---------------------------------------------------------------------------

/// Forward exchange: move coin `i` up by the paid amount, solve for coin `j`,
/// keep one unit as a rounding safeguard, then take the trading fee.
pub open spec fn spec_exchange(
    amp: int,
    fee: int,
    i: int,
    j: int,
    dx: int,
    bals: Seq<int>,
) -> Option<int> {
    if bals[i] + dx >= pow128() {
        None
    } else {
        match spec_get_y(amp, i, j, bals[i] + dx, bals) {
            None => None,
            Some(y) => {
                if bals[j] - y < 0 {
                    None
                } else if bals[j] - y - 1 < 0 {
                    None
                } else {
                    let gross = bals[j] - y - 1;
                    if gross * fee >= pow128() {
                        None
                    } else {
                        let cut = gross * fee / fee_den();
                        if gross - cut < 0 {
                            None
                        } else {
                            Some(gross - cut)
                        }
                    }
                }
            },
        }
    }
}

/// Reverse exchange: gross the desired output up by the fee, move coin `i`
/// down by it, solve for coin `j`, and derive the required input.
pub open spec fn spec_reverse_exchange(
    amp: int,
    fee: int,
    i: int,
    j: int,
    dy: int,
    bals: Seq<int>,
) -> Option<int> {
    if dy * fee_den() >= pow128() {
        None
    } else if fee_den() - fee <= 0 {
        None
    } else {
        let gross = dy * fee_den() / (fee_den() - fee);
        if bals[i] - gross < 0 {
            None
        } else {
            match spec_get_y(amp, i, j, bals[i] - gross, bals) {
                None => None,
                Some(y) => {
                    if y - bals[j] < 0 {
                        None
                    } else if y - bals[j] + 1 >= pow128() {
                        None
                    } else {
                        Some(y - bals[j] + 1)
                    }
                },
            }
        }
    }
}

// ---------------------------------------------------------------------------
// Liquidity engine
// ---------------------------------------------------------------------------

/// One coin's fee-adjusted balance for a deposit: charge the asymmetry fee on
/// the distance from the ideal proportional balance.
pub open spec fn adj_coin(fee2: int, d0: int, d1: int, ob: int, nb: int) -> Option<int> {
    if d1 * ob >= pow128() {
        None
    } else if d0 == 0 {
        None
    } else {
        let ideal = d1 * ob / d0;
        let diff = if ideal < nb {
            nb - ideal
        } else {
            ideal - nb
        };
        if fee2 * diff >= pow128() {
            None
        } else {
            let ft = fee2 * diff / fee_den();
            if nb - ft < 0 {
                None
            } else {
                Some(nb - ft)
            }
        }
    }
}

pub open spec fn adj_upto(
    fee2: int,
    d0: int,
    d1: int,
    old: Seq<int>,
    new: Seq<int>,
    k: int,
) -> Option<Seq<int>>
    decreases k,
{
    if k <= 0 {
        Some(Seq::empty())
    } else {
        match adj_upto(fee2, d0, d1, old, new, k - 1) {
            None => None,
            Some(pre) => match adj_coin(fee2, d0, d1, old[k - 1], new[k - 1]) {
                None => None,
                Some(v) => Some(pre.push(v)),
            },
        }
    }
}

/// The asymmetry-fee numerator used by deposits and single-sided
/// withdrawals: `fee * n / (4 * (n - 1))`.
pub open spec fn spec_fee2(fee: int, n: int) -> int {
    fee * n / 4 / (n - 1)
}

/// Liquidity minted for moving the pool from `old` to `new` balances.
pub open spec fn spec_deposit(
    amp: int,
    fee: int,
    old: Seq<int>,
    new: Seq<int>,
    lp: int,
) -> Option<int> {
    let n = old.len() as int;
    match spec_get_d(amp, old, None) {
        None => None,
        Some(d0) => match spec_get_d(amp, new, None) {
            None => None,
            Some(d1) => {
                if d1 <= d0 {
                    None
                } else if lp == 0 {
                    if d1 < pow64() {
                        Some(d1)
                    } else {
                        None
                    }
                } else if fee * n >= pow64() {
                    None
                } else if n == 1 {
                    None
                } else {
                    let fee2 = spec_fee2(fee, n);
                    match adj_upto(fee2, d0, d1, old, new, n) {
                        None => None,
                        Some(adj) => {
                            if sum(adj) * d1 >= pow128() {
                                None
                            } else if sum(new) == 0 {
                                None
                            } else {
                                let d_sug = sum(adj) * d1 / sum(new);
                                match spec_get_d(amp, adj, Some(d_sug)) {
                                    None => None,
                                    Some(d2) => {
                                        if d2 - d0 < 0 {
                                            None
                                        } else if lp * (d2 - d0) >= pow128() {
                                            None
                                        } else if d0 == 0 {
                                            None
                                        } else {
                                            let mint = lp * (d2 - d0) / d0;
                                            if mint < pow64() {
                                                Some(mint)
                                            } else {
                                                None
                                            }
                                        }
                                    },
                                }
                            }
                        },
                    }
                }
            },
        },
    }
}

/// Pro-rata withdrawal amounts for burning `unmint` of `lp` shares, over the
/// first `k` coins.
pub open spec fn rb_upto(old: Seq<int>, unmint: int, lp: int, k: int) -> Option<Seq<int>>
    decreases k,
{
    if k <= 0 {
        Some(Seq::empty())
    } else {
        match rb_upto(old, unmint, lp, k - 1) {
            None => None,
            Some(pre) => {
                if old[k - 1] * unmint >= pow128() {
                    None
                } else if lp == 0 {
                    None
                } else {
                    Some(pre.push(old[k - 1] * unmint / lp))
                }
            },
        }
    }
}

/// Pro-rata withdrawal amounts for burning `unmint` of `lp` shares.
pub open spec fn spec_remove_balanced(old: Seq<int>, unmint: int, lp: int) -> Option<Seq<int>> {
    rb_upto(old, unmint, lp, old.len() as int)
}

/// One coin's fee-reduced balance for a single-sided withdrawal.
pub open spec fn red_coin(
    fee2: int,
    d0: int,
    d1: int,
    new_y: int,
    i: int,
    old: Seq<int>,
    j: int,
) -> Option<int> {
    let ob = old[j];
    if ob * d1 >= pow128() {
        None
    } else if d0 == 0 {
        None
    } else {
        let scaled = ob * d1 / d0;
        let dxe = if j == i {
            scaled - new_y
        } else {
            ob - scaled
        };
        if dxe < 0 {
            None
        } else if fee2 * dxe >= pow128() {
            None
        } else {
            let ft = fee2 * dxe / fee_den();
            if ob - ft < 0 {
                None
            } else {
                Some(ob - ft)
            }
        }
    }
}

pub open spec fn red_upto(
    fee2: int,
    d0: int,
    d1: int,
    new_y: int,
    i: int,
    old: Seq<int>,
    k: int,
) -> Option<Seq<int>>
    decreases k,
{
    if k <= 0 {
        Some(Seq::empty())
    } else {
        match red_upto(fee2, d0, d1, new_y, i, old, k - 1) {
            None => None,
            Some(pre) => match red_coin(fee2, d0, d1, new_y, i, old, k - 1) {
                None => None,
                Some(v) => Some(pre.push(v)),
            },
        }
    }
}

/// Amount of coin `i` paid out for burning `unmint` of `lp` shares.
pub open spec fn spec_remove_single(
    amp: int,
    fee: int,
    old: Seq<int>,
    unmint: int,
    i: int,
    lp: int,
) -> Option<int> {
    let n = old.len() as int;
    match spec_get_d(amp, old, None) {
        None => None,
        Some(d0) => {
            if unmint * d0 >= pow128() {
                None
            } else if lp == 0 {
                None
            } else if d0 - unmint * d0 / lp < 0 {
                None
            } else {
                let d1 = d0 - unmint * d0 / lp;
                match spec_get_y_d(amp, i, old, d1) {
                    None => None,
                    Some(new_y) => {
                        if fee * n >= pow64() {
                            None
                        } else if n == 1 {
                            None
                        } else {
                            let fee2 = spec_fee2(fee, n);
                            match red_upto(fee2, d0, d1, new_y, i, old, n) {
                                None => None,
                                Some(red) => match spec_get_y_d(amp, i, red, d1) {
                                    None => None,
                                    Some(y2) => {
                                        if red[i] - y2 < 0 {
                                            None
                                        } else if red[i] - y2 - 1 < 0 {
                                            None
                                        } else if red[i] - y2 - 1 >= pow64() {
                                            None
                                        } else {
                                            Some(red[i] - y2 - 1)
                                        }
                                    },
                                },
                            }
                        }
                    },
                }
            }
        },
    }
}

pub proof fn lemma_sum_pointwise_le(a: Seq<int>, b: Seq<int>)
    requires
        a.len() == b.len(),
        forall|t: int| 0 <= t < a.len() ==> a[t] <= b[t],
    ensures
        sum(a) <= sum(b),
    decreases a.len(),
{
    if a.len() > 0 {
        lemma_sum_pointwise_le(a.drop_last(), b.drop_last());
    }
}

/// Once a per-coin accumulation has failed for a prefix, it has failed for
/// every longer prefix.
pub proof fn lemma_rb_none(old: Seq<int>, unmint: int, lp: int, k: int, k2: int)
    requires
        0 <= k <= k2,
        rb_upto(old, unmint, lp, k) is None,
    ensures
        rb_upto(old, unmint, lp, k2) is None,
    decreases k2 - k,
{
    if k < k2 {
        lemma_rb_none(old, unmint, lp, k, k2 - 1);
    }
}

pub proof fn lemma_adj_none(fee2: int, d0: int, d1: int, old: Seq<int>, new: Seq<int>, k: int, k2: int)
    requires
        0 <= k <= k2,
        adj_upto(fee2, d0, d1, old, new, k) is None,
    ensures
        adj_upto(fee2, d0, d1, old, new, k2) is None,
    decreases k2 - k,
{
    if k < k2 {
        lemma_adj_none(fee2, d0, d1, old, new, k, k2 - 1);
    }
}

pub proof fn lemma_red_none(
    fee2: int,
    d0: int,
    d1: int,
    new_y: int,
    i: int,
    old: Seq<int>,
    k: int,
    k2: int,
)
    requires
        0 <= k <= k2,
        red_upto(fee2, d0, d1, new_y, i, old, k) is None,
    ensures
        red_upto(fee2, d0, d1, new_y, i, old, k2) is None,
    decreases k2 - k,
{
    if k < k2 {
        lemma_red_none(fee2, d0, d1, new_y, i, old, k, k2 - 1);
    }
}

/// A fee-adjusted balance vector never exceeds the deposited balances
/// coin by coin, and never goes negative.
pub proof fn lemma_adj_le(fee2: int, d0: int, d1: int, old: Seq<int>, new: Seq<int>, k: int)
    requires
        0 <= k,
        fee2 >= 0,
        adj_upto(fee2, d0, d1, old, new, k) is Some,
    ensures
        adj_upto(fee2, d0, d1, old, new, k)->0.len() == k,
        forall|t: int|
            0 <= t < k ==> 0 <= #[trigger] adj_upto(fee2, d0, d1, old, new, k)->0[t] <= new[t],
    decreases k,
{
    if k > 0 {
        lemma_adj_le(fee2, d0, d1, old, new, k - 1);
        let ob = old[k - 1];
        let nb = new[k - 1];
        let ideal = d1 * ob / d0;
        let diff = if ideal < nb {
            nb - ideal
        } else {
            ideal - nb
        };
        assert(fee2 * diff >= 0) by (nonlinear_arith)
            requires
                fee2 >= 0,
                diff >= 0,
        ;
        assert(fee2 * diff / fee_den() >= 0);
    }
}

// ---------------------------------------------------------------------------
// Price oracle
// ---------------------------------------------------------------------------

/// The pool value per share, scaled by ten to the chosen precision.
pub open spec fn spec_virtual_price(
    amp: int,
    bals: Seq<int>,
    lp: int,
    precision: int,
) -> Option<int> {
    match spec_get_d(amp, bals, None) {
        None => None,
        Some(d) => {
            if vstd::arithmetic::power::pow(10, precision as nat) >= pow128() {
                None
            } else {
                let scale = vstd::arithmetic::power::pow(10, precision as nat) as int;
                if d * scale >= pow128() {
                    None
                } else if lp == 0 {
                    None
                } else {
                    let vp = d * scale / lp;
                    if vp < pow64() {
                        Some(vp)
                    } else {
                        None
                    }
                }
            }
        },
    }
}

} // verus!
