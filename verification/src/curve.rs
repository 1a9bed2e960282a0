//! The executable pricing engine, verified against the model.

use vstd::prelude::*;

use crate::model::{
    adj_coin, adj_upto, d_loop, d_prod_upto, d_step, ints, iter_cap, nonneg, opt_int,
    opt_int64, pow64, rb_upto, red_coin, red_upto, scaled_ok, spec_deposit, spec_exchange,
    spec_fee2, spec_get_d, spec_get_y, spec_get_y_d, spec_remove_balanced, spec_remove_single,
    spec_reverse_exchange, spec_virtual_price, sum, y_acc_step, y_acc_swap, y_acc_wd, y_loop,
    y_step, y_tail,
};
use crate::model::{
    lemma_adj_le, lemma_adj_none, lemma_rb_none, lemma_red_none, lemma_sum_pointwise_le,
    lemma_sum_take_le, lemma_sum_take_succ,
};
use vstd::arithmetic::power::pow;
use crate::wide::{pow128, pow256, Wide};

verus! {

/// Denominator of every fee numerator handled by the engine.
pub const FEE_DENOMINATOR: u64 = 10_000;

/// The fixed Newton iteration bound.
const ITERATIONS: u8 = 32;

/// A StableSwap-style pricing curve: amplification and flat trading fee.
pub struct Curve {
    pub amp: u64,
    pub fee_numerator: u64,
}

/// Sum of a balance vector; `None` when the sum needs more than 128 bits.
fn checked_sum(amounts: &[u128]) -> (r: Option<u128>)
    ensures
        r is Some <==> sum(ints(amounts@)) < pow128(),
        r is Some ==> r->0 == sum(ints(amounts@)),
{
    let ghost m = ints(amounts@);
    proof {
        assert(nonneg(m));
        assert(m.take(0) =~= Seq::<int>::empty());
    }
    let mut acc: u128 = 0;
    let mut k: usize = 0;
    while k < amounts.len()
        invariant
            k <= amounts@.len(),
            m == ints(amounts@),
            m.len() == amounts@.len(),
            nonneg(m),
            acc == sum(m.take(k as int)),
        decreases amounts@.len() - k,
    {
        proof {
            lemma_sum_take_succ(m, k as int);
        }
        acc = match acc.checked_add(amounts[k]) {
            Some(a) => a,
            None => {
                proof {
                    lemma_sum_take_le(m, k as int + 1);
                }
                return None;
            },
        };
        k = k + 1;
    }
    proof {
        assert(m.take(m.len() as int) =~= m);
    }
    Some(acc)
}

/// Once the product accumulation has failed for a prefix, it has failed for
/// every longer prefix.
proof fn lemma_d_prod_none(amounts: Seq<int>, n: int, d: int, k: int, k2: int)
    requires
        0 <= k <= k2,
        d_prod_upto(amounts, n, d, k) is None,
    ensures
        d_prod_upto(amounts, n, d, k2) is None,
    decreases k2 - k,
{
    if k < k2 {
        lemma_d_prod_none(amounts, n, d, k, k2 - 1);
    }
}

/// Once the coefficient accumulation of the withdrawal variant has failed
/// for a prefix of the coins, it has failed for every longer prefix.
proof fn lemma_y_acc_wd_none(i: int, bals: Seq<int>, d: int, n: int, k: int, k2: int)
    requires
        0 <= k <= k2,
        y_acc_wd(i, bals, d, n, k) is None,
    ensures
        y_acc_wd(i, bals, d, n, k2) is None,
    decreases k2 - k,
{
    if k < k2 {
        lemma_y_acc_wd_none(i, bals, d, n, k, k2 - 1);
    }
}

/// The same, for the swap variant.
proof fn lemma_y_acc_swap_none(i: int, j: int, x: int, bals: Seq<int>, d: int, n: int, k: int, k2: int)
    requires
        0 <= k <= k2,
        y_acc_swap(i, j, x, bals, d, n, k) is None,
    ensures
        y_acc_swap(i, j, x, bals, d, n, k2) is None,
    decreases k2 - k,
{
    if k < k2 {
        lemma_y_acc_swap_none(i, j, x, bals, d, n, k, k2 - 1);
    }
}

/// One coin's contribution to the quadratic coefficients of the balance
/// solver: `s <- s + xt` and `c <- c * d / (xt * n)`.
fn y_coin_step(s: u128, c: Wide, xt: u128, d: u128, n_coins: usize) -> (r: Option<(u128, Wide)>)
    ensures
        match r {
            Some(p) => y_acc_step(s as int, c.val(), xt as int, d as int, n_coins as int)
                == Some((p.0 as int, p.1.val())),
            None => y_acc_step(s as int, c.val(), xt as int, d as int, n_coins as int) is None,
        },
{
    let s2 = match s.checked_add(xt) {
        Some(v) => v,
        None => {
            return None;
        },
    };
    let xtn = match xt.checked_mul(n_coins as u128) {
        Some(v) => v,
        None => {
            return None;
        },
    };
    let cd = match c.checked_mul(Wide::from_u128(d)) {
        Some(v) => v,
        None => {
            return None;
        },
    };
    let c2 = match cd.checked_div(Wide::from_u128(xtn)) {
        Some(v) => v,
        None => {
            return None;
        },
    };
    Some((s2, c2))
}

/// The bounded Newton iteration on the quadratic `y^2 + b*y = c`,
/// started from `y = d`.
#[verifier::loop_isolation(false)]
fn y_newton(c: Wide, b: u128, d: u128) -> (r: Option<u128>)
    ensures
        opt_int(r) == y_loop(c.val(), b as int, d as int, d as int, iter_cap()),
{
    let mut y: u128 = d;
    let mut it: u8 = 0;
    while it < ITERATIONS
        invariant
            it <= ITERATIONS,
            y_loop(c.val(), b as int, d as int, d as int, iter_cap()) == y_loop(
                c.val(),
                b as int,
                d as int,
                y as int,
                (ITERATIONS - it) as nat,
            ),
        decreases ITERATIONS - it,
    {
        let yy = match y.checked_mul(y) {
            Some(v) => v,
            None => {
                proof {
                    assert(y_step(c.val(), b as int, d as int, y as int) is None);
                }
                return None;
            },
        };
        let c128 = match c.to_u128() {
            Some(v) => v,
            None => {
                proof {
                    assert(y_step(c.val(), b as int, d as int, y as int) is None);
                }
                return None;
            },
        };
        let y_num = match yy.checked_add(c128) {
            Some(v) => v,
            None => {
                proof {
                    assert(y_step(c.val(), b as int, d as int, y as int) is None);
                }
                return None;
            },
        };
        let y2 = match y.checked_mul(2) {
            Some(v) => v,
            None => {
                proof {
                    assert(y_step(c.val(), b as int, d as int, y as int) is None);
                }
                return None;
            },
        };
        let y2b = match y2.checked_add(b) {
            Some(v) => v,
            None => {
                proof {
                    assert(y_step(c.val(), b as int, d as int, y as int) is None);
                }
                return None;
            },
        };
        let y_den = match y2b.checked_sub(d) {
            Some(v) => v,
            None => {
                proof {
                    assert(y_step(c.val(), b as int, d as int, y as int) is None);
                }
                return None;
            },
        };
        let y_next = match y_num.checked_div(y_den) {
            Some(v) => v,
            None => {
                proof {
                    assert(y_step(c.val(), b as int, d as int, y as int) is None);
                }
                return None;
            },
        };
        proof {
            assert(y_step(c.val(), b as int, d as int, y as int) == Some(y_next as int));
        }
        if y_next > y {
            if y_next - y <= 1 {
                return Some(y_next);
            }
        } else {
            if y - y_next <= 1 {
                return Some(y_next);
            }
        }
        y = y_next;
        it = it + 1;
    }
    Some(y)
}

/// Finish the balance solver once the coefficients are accumulated.
fn y_finish(ann: u64, n_coins: usize, s: u128, c1: Wide, d: u128) -> (r: Option<u128>)
    ensures
        opt_int(r) == y_tail(ann as int, n_coins as int, s as int, c1.val(), d as int),
{
    let ann_n = match ann.checked_mul(n_coins as u64) {
        Some(v) => v,
        None => {
            return None;
        },
    };
    let cd = match c1.checked_mul(Wide::from_u128(d)) {
        Some(v) => v,
        None => {
            return None;
        },
    };
    let c = match cd.checked_div(Wide::from_u128(ann_n as u128)) {
        Some(v) => v,
        None => {
            return None;
        },
    };
    proof {
        assert(ann != 0);
    }
    let q = d / (ann as u128);
    let b = match s.checked_add(q) {
        Some(v) => v,
        None => {
            return None;
        },
    };
    y_newton(c, b, d)
}

impl Curve {
    /// The invariant `D` of the balances: `0` for an all-zero pool, else the
    /// value of the bounded Newton iteration, started from the balance sum or
    /// from the caller's suggestion. `None` on any overflow or division by
    /// zero along the way, including a zero amplification.
    #[verifier::loop_isolation(false)]
    pub fn get_d(&self, amounts: &[u128], d_suggest: Option<u128>) -> (r: Option<u128>)
        ensures
            opt_int(r) == spec_get_d(self.amp as int, ints(amounts@), opt_int(d_suggest)),
    {
        let ghost m = ints(amounts@);
        let ghost nn = m.len() as int;
        let n_coins: usize = amounts.len();
        proof {
            assert(nonneg(m));
        }
        let sum_x = match checked_sum(amounts) {
            Some(s) => s,
            None => {
                return None;
            },
        };
        if sum_x == 0 {
            return Some(0);
        }
        // every balance scaled by the coin count, used by the product term
        let mut scaled: Vec<u128> = Vec::new();
        let mut k: usize = 0;
        while k < n_coins
            invariant
                k <= n_coins,
                scaled@.len() == k,
                forall|t: int|
                    0 <= t < k ==> #[trigger] (m[t] * nn) < pow128() && scaled@[t] == m[t] * nn,
            decreases n_coins - k,
        {
            let v = match amounts[k].checked_mul(n_coins as u128) {
                Some(v) => v,
                None => {
                    proof {
                        assert(m[k as int] * nn >= pow128());
                        assert(!scaled_ok(m, nn));
                    }
                    return None;
                },
            };
            scaled.push(v);
            k = k + 1;
        }
        proof {
            assert(scaled_ok(m, nn));
        }
        let ann = match self.amp.checked_mul(n_coins as u64) {
            Some(a) => a,
            None => {
                return None;
            },
        };
        let ann_sub_one = match ann.checked_sub(1) {
            Some(a) => a,
            None => {
                return None;
            },
        };
        let ann_mul_sum = Wide::mul_u128(ann as u128, sum_x);
        let mut d: u128 = match d_suggest {
            Some(v) => v,
            None => sum_x,
        };
        let ghost spec_r = spec_get_d(self.amp as int, m, opt_int(d_suggest));
        proof {
            assert(spec_r == d_loop(m, ann as int, sum_x as int, nn, d as int, iter_cap()));
        }
        let mut it: u8 = 0;
        while it < ITERATIONS
            invariant
                it <= ITERATIONS,
                spec_r == d_loop(m, ann as int, sum_x as int, nn, d as int, (
                ITERATIONS - it) as nat),
            decreases ITERATIONS - it,
        {
            let ghost left = (ITERATIONS - it) as nat;
            let d_w = Wide::from_u128(d);
            let mut p = d_w;
            let mut j: usize = 0;
            while j < n_coins
                invariant
                    j <= n_coins,
                    d_prod_upto(m, nn, d as int, j as int) == Some(p.val()),
                decreases n_coins - j,
            {
                let pd = match p.checked_mul(d_w) {
                    Some(x) => x,
                    None => {
                        proof {
                            assert(d_prod_upto(m, nn, d as int, j + 1) is None);
                            lemma_d_prod_none(m, nn, d as int, j + 1, nn);
                            assert(d_step(m, ann as int, sum_x as int, nn, d as int) is None);
                        }
                        return None;
                    },
                };
                let p2 = match pd.checked_div(Wide::from_u128(scaled[j])) {
                    Some(x) => x,
                    None => {
                        proof {
                            assert(m[j as int] * nn == 0);
                            assert(d_prod_upto(m, nn, d as int, j + 1) is None);
                            lemma_d_prod_none(m, nn, d as int, j + 1, nn);
                            assert(d_step(m, ann as int, sum_x as int, nn, d as int) is None);
                        }
                        return None;
                    },
                };
                proof {
                    assert(p2.val() == p.val() * d / (m[j as int] * nn));
                    assert(d_prod_upto(m, nn, d as int, j + 1) == Some(p2.val()));
                }
                p = p2;
                j = j + 1;
            }
            let ghost pv = p.val();
            proof {
                assert(d_prod_upto(m, nn, d as int, nn) == Some(pv));
            }
            let pn = match p.checked_mul(Wide::from_u128(n_coins as u128)) {
                Some(x) => x,
                None => {
                    proof {
                        assert(d_step(m, ann as int, sum_x as int, nn, d as int) is None);
                    }
                    return None;
                },
            };
            let num_base = match ann_mul_sum.checked_add(pn) {
                Some(x) => x,
                None => {
                    proof {
                        assert(d_step(m, ann as int, sum_x as int, nn, d as int) is None);
                    }
                    return None;
                },
            };
            let num = match num_base.checked_mul(d_w) {
                Some(x) => x,
                None => {
                    proof {
                        assert(d_step(m, ann as int, sum_x as int, nn, d as int) is None);
                    }
                    return None;
                },
            };
            proof {
                assert((d as int) * (ann_sub_one as int) < pow256()) by (nonlinear_arith)
                    requires
                        d < pow128(),
                        ann_sub_one < pow64(),
                        pow64() * pow128() < pow256();
            }
            let den_a = d_w.checked_mul(Wide::from_u128(ann_sub_one as u128)).unwrap();
            let den_b = match p.checked_add(pn) {
                Some(x) => x,
                None => {
                    proof {
                        assert(d_step(m, ann as int, sum_x as int, nn, d as int) is None);
                    }
                    return None;
                },
            };
            let den = match den_a.checked_add(den_b) {
                Some(x) => x,
                None => {
                    proof {
                        assert(d_step(m, ann as int, sum_x as int, nn, d as int) is None);
                    }
                    return None;
                },
            };
            let dq = match num.checked_div(den) {
                Some(x) => x,
                None => {
                    proof {
                        assert(d_step(m, ann as int, sum_x as int, nn, d as int) is None);
                    }
                    return None;
                },
            };
            let d_new = match dq.to_u128() {
                Some(x) => x,
                None => {
                    proof {
                        assert(d_step(m, ann as int, sum_x as int, nn, d as int) is None);
                    }
                    return None;
                },
            };
            proof {
                assert(d_step(m, ann as int, sum_x as int, nn, d as int) == Some(d_new as int));
            }
            if d_new > d {
                if d_new - d <= 1 {
                    return Some(d_new);
                }
            } else {
                if d - d_new <= 1 {
                    return Some(d_new);
                }
            }
            proof {
                assert(d_loop(m, ann as int, sum_x as int, nn, d as int, left) == d_loop(
                    m,
                    ann as int,
                    sum_x as int,
                    nn,
                    d_new as int,
                    (left - 1) as nat,
                ));
            }
            d = d_new;
            it = it + 1;
        }
        Some(d)
    }

    /// The balance coin `i` would need to hold for the pool to satisfy the
    /// target invariant `d`, every other balance unchanged. Used to price a
    /// single-sided withdrawal against a reduced invariant.
    #[verifier::loop_isolation(false)]
    pub fn get_y_d(&self, i: u8, amounts: &[u128], d: u128) -> (r: Option<u128>)
        ensures
            opt_int(r) == spec_get_y_d(self.amp as int, i as int, ints(amounts@), d as int),
    {
        let ghost m = ints(amounts@);
        let ghost nn = m.len() as int;
        let n_coins = amounts.len();
        let ann = match self.amp.checked_mul(n_coins as u64) {
            Some(a) => a,
            None => {
                return None;
            },
        };
        let mut c = Wide::from_u128(d);
        let mut s: u128 = 0;
        let mut k: usize = 0;
        while k < n_coins
            invariant
                k <= n_coins,
                y_acc_wd(i as int, m, d as int, nn, k as int) == Some((s as int, c.val())),
            decreases n_coins - k,
        {
            if k != i as usize {
                let (s2, c2) = match y_coin_step(s, c, amounts[k], d, n_coins) {
                    Some(p) => p,
                    None => {
                        proof {
                            assert(y_acc_wd(i as int, m, d as int, nn, k + 1) is None);
                            lemma_y_acc_wd_none(i as int, m, d as int, nn, k + 1, nn);
                        }
                        return None;
                    },
                };
                s = s2;
                c = c2;
            }
            k = k + 1;
        }
        y_finish(ann, n_coins, s, c, d)
    }

    /// The new balance of coin `j` after coin `i` moves to `x`, at the
    /// invariant of the current balances. Used to price a swap.
    #[verifier::loop_isolation(false)]
    pub fn get_y(&self, i: usize, j: usize, x: u128, balances: &[u128]) -> (r: Option<u128>)
        ensures
            opt_int(r) == spec_get_y(
                self.amp as int,
                i as int,
                j as int,
                x as int,
                ints(balances@),
            ),
    {
        let ghost m = ints(balances@);
        let ghost nn = m.len() as int;
        let n_coins = balances.len();
        let d = match self.get_d(balances, None) {
            Some(v) => v,
            None => {
                return None;
            },
        };
        let ann = match self.amp.checked_mul(n_coins as u64) {
            Some(a) => a,
            None => {
                return None;
            },
        };
        let mut c = Wide::from_u128(d);
        let mut s: u128 = 0;
        let mut k: usize = 0;
        while k < n_coins
            invariant
                k <= n_coins,
                y_acc_swap(i as int, j as int, x as int, m, d as int, nn, k as int) == Some(
                    (s as int, c.val()),
                ),
            decreases n_coins - k,
        {
            if k == i {
                let (s2, c2) = match y_coin_step(s, c, x, d, n_coins) {
                    Some(p) => p,
                    None => {
                        proof {
                            assert(y_acc_swap(i as int, j as int, x as int, m, d as int, nn, k + 1)
                                is None);
                            lemma_y_acc_swap_none(
                                i as int, j as int, x as int, m, d as int, nn, k + 1, nn);
                        }
                        return None;
                    },
                };
                s = s2;
                c = c2;
            } else if k != j {
                let (s2, c2) = match y_coin_step(s, c, balances[k], d, n_coins) {
                    Some(p) => p,
                    None => {
                        proof {
                            assert(y_acc_swap(i as int, j as int, x as int, m, d as int, nn, k + 1)
                                is None);
                            lemma_y_acc_swap_none(
                                i as int, j as int, x as int, m, d as int, nn, k + 1, nn);
                        }
                        return None;
                    },
                };
                s = s2;
                c = c2;
            }
            k = k + 1;
        }
        y_finish(ann, n_coins, s, c, d)
    }

    /// Output of coin `j` for paying `in_amount` of coin `i`, net of the
    /// trading fee; one unit is withheld as a rounding safeguard so the pool
    /// never pays out more than the invariant allows.
    pub fn exchange(&self, i: usize, j: usize, in_amount: u64, balances: &[u128]) -> (r: Option<
        u128,
    >)
        requires
            i < balances@.len(),
            j < balances@.len(),
        ensures
            opt_int(r) == spec_exchange(
                self.amp as int,
                self.fee_numerator as int,
                i as int,
                j as int,
                in_amount as int,
                ints(balances@),
            ),
    {
        let x = match balances[i].checked_add(in_amount as u128) {
            Some(v) => v,
            None => {
                return None;
            },
        };
        let y = match self.get_y(i, j, x, balances) {
            Some(v) => v,
            None => {
                return None;
            },
        };
        let gross = match balances[j].checked_sub(y) {
            Some(v) => v,
            None => {
                return None;
            },
        };
        let gross = match gross.checked_sub(1) {
            Some(v) => v,
            None => {
                return None;
            },
        };
        let cut_num = match gross.checked_mul(self.fee_numerator as u128) {
            Some(v) => v,
            None => {
                return None;
            },
        };
        let cut = cut_num / (FEE_DENOMINATOR as u128);
        let dy = match gross.checked_sub(cut) {
            Some(v) => v,
            None => {
                return None;
            },
        };
        Some(dy)
    }

    /// Input of coin `i` required to receive `out_amount` of coin `j`,
    /// grossing the desired output up by the trading fee first. A fee
    /// numerator at or above the denominator leaves nothing to pay out, so
    /// the result is absent.
    pub fn reverse_exchange(&self, i: usize, j: usize, out_amount: u128, balances: &[u128]) -> (r:
        Option<u128>)
        requires
            i < balances@.len(),
            j < balances@.len(),
        ensures
            opt_int(r) == spec_reverse_exchange(
                self.amp as int,
                self.fee_numerator as int,
                i as int,
                j as int,
                out_amount as int,
                ints(balances@),
            ),
    {
        let gross_num = match out_amount.checked_mul(FEE_DENOMINATOR as u128) {
            Some(v) => v,
            None => {
                return None;
            },
        };
        let fee_room = match (FEE_DENOMINATOR as u128).checked_sub(self.fee_numerator as u128) {
            Some(v) => v,
            None => {
                return None;
            },
        };
        let gross = match gross_num.checked_div(fee_room) {
            Some(v) => v,
            None => {
                return None;
            },
        };
        let x = match balances[i].checked_sub(gross) {
            Some(v) => v,
            None => {
                return None;
            },
        };
        let y = match self.get_y(i, j, x, balances) {
            Some(v) => v,
            None => {
                return None;
            },
        };
        let dx = match y.checked_sub(balances[j]) {
            Some(v) => v,
            None => {
                return None;
            },
        };
        dx.checked_add(1)
    }

    /// Liquidity minted for moving the pool from `old_balances` to
    /// `new_balances`. The first deposit into an empty pool mints the new
    /// invariant itself; later deposits charge the asymmetry fee on each
    /// coin's distance from the proportional ideal, then mint in proportion
    /// to the invariant growth. `None` when no value is added.
    #[verifier::loop_isolation(false)]
    pub fn deposit(&self, old_balances: &[u128], new_balances: &[u128], lp_token_total: u64) -> (r:
        Option<u64>)
        requires
            old_balances@.len() == new_balances@.len(),
        ensures
            opt_int64(r) == spec_deposit(
                self.amp as int,
                self.fee_numerator as int,
                ints(old_balances@),
                ints(new_balances@),
                lp_token_total as int,
            ),
    {
        let ghost mo = ints(old_balances@);
        let ghost mn = ints(new_balances@);
        let ghost nn = mo.len() as int;
        let n_coins = old_balances.len();
        let d_0 = match self.get_d(old_balances, None) {
            Some(v) => v,
            None => {
                return None;
            },
        };
        let d_1 = match self.get_d(new_balances, None) {
            Some(v) => v,
            None => {
                return None;
            },
        };
        if d_1 <= d_0 {
            return None;
        }
        if lp_token_total == 0 {
            if d_1 <= u64::MAX as u128 {
                return Some(d_1 as u64);
            } else {
                return None;
            }
        }
        proof {
            // a positive invariant needs a positive balance sum, so the pool
            // has at least one coin
            assert(n_coins >= 1);
        }
        let fee_n = match self.fee_numerator.checked_mul(n_coins as u64) {
            Some(v) => v,
            None => {
                return None;
            },
        };
        let fee2 = match (fee_n / 4).checked_div(n_coins as u64 - 1) {
            Some(v) => v,
            None => {
                return None;
            },
        };
        let ghost g_fee2 = spec_fee2(self.fee_numerator as int, nn);
        proof {
            assert(g_fee2 == fee2);
        }
        let mut adj: Vec<u128> = Vec::new();
        let mut k: usize = 0;
        while k < n_coins
            invariant
                k <= n_coins,
                adj_upto(g_fee2, d_0 as int, d_1 as int, mo, mn, k as int) == Some(ints(adj@)),
            decreases n_coins - k,
        {
            let id_num = match d_1.checked_mul(old_balances[k]) {
                Some(v) => v,
                None => {
                    proof {
                        lemma_adj_none(g_fee2, d_0 as int, d_1 as int, mo, mn, k + 1, nn);
                    }
                    return None;
                },
            };
            let ideal = match id_num.checked_div(d_0) {
                Some(v) => v,
                None => {
                    proof {
                        lemma_adj_none(g_fee2, d_0 as int, d_1 as int, mo, mn, k + 1, nn);
                    }
                    return None;
                },
            };
            let nb = new_balances[k];
            let diff = if ideal < nb {
                nb - ideal
            } else {
                ideal - nb
            };
            let ft_num = match (fee2 as u128).checked_mul(diff) {
                Some(v) => v,
                None => {
                    proof {
                        lemma_adj_none(g_fee2, d_0 as int, d_1 as int, mo, mn, k + 1, nn);
                    }
                    return None;
                },
            };
            let ft = ft_num / (FEE_DENOMINATOR as u128);
            let av = match nb.checked_sub(ft) {
                Some(v) => v,
                None => {
                    proof {
                        lemma_adj_none(g_fee2, d_0 as int, d_1 as int, mo, mn, k + 1, nn);
                    }
                    return None;
                },
            };
            proof {
                assert(adj_coin(g_fee2, d_0 as int, d_1 as int, mo[k as int], mn[k as int])
                    == Some(av as int));
                assert(ints(adj@.push(av)) =~= ints(adj@).push(av as int));
            }
            adj.push(av);
            k = k + 1;
        }
        let ghost g_adj = ints(adj@);
        let new_sum = match checked_sum(new_balances) {
            Some(v) => v,
            None => {
                proof {
                    // the invariant of the new balances exists, so their sum
                    // is representable
                    assert(false);
                }
                return None;
            },
        };
        let fee_sum = match checked_sum(adj.as_slice()) {
            Some(v) => v,
            None => {
                proof {
                    lemma_adj_le(g_fee2, d_0 as int, d_1 as int, mo, mn, nn);
                    lemma_sum_pointwise_le(g_adj, mn);
                    assert(false);
                }
                return None;
            },
        };
        let sug_num = match fee_sum.checked_mul(d_1) {
            Some(v) => v,
            None => {
                return None;
            },
        };
        let d_sug = match sug_num.checked_div(new_sum) {
            Some(v) => v,
            None => {
                return None;
            },
        };
        let d_2 = match self.get_d(adj.as_slice(), Some(d_sug)) {
            Some(v) => v,
            None => {
                return None;
            },
        };
        let d_diff = match d_2.checked_sub(d_0) {
            Some(v) => v,
            None => {
                return None;
            },
        };
        let mint_num = match (lp_token_total as u128).checked_mul(d_diff) {
            Some(v) => v,
            None => {
                return None;
            },
        };
        let mint = match mint_num.checked_div(d_0) {
            Some(v) => v,
            None => {
                return None;
            },
        };
        if mint <= u64::MAX as u128 {
            Some(mint as u64)
        } else {
            None
        }
    }

    /// Pro-rata withdrawal: each coin pays out its share of the burned
    /// liquidity, with no invariant solve and no fee.
    #[verifier::loop_isolation(false)]
    pub fn remove_balanced_liquidity(
        old_balances: &[u128],
        unmint_amount: u64,
        lp_total_supply: u64,
    ) -> (r: Option<Vec<u128>>)
        ensures
            r is Some <==> spec_remove_balanced(
                ints(old_balances@),
                unmint_amount as int,
                lp_total_supply as int,
            ) is Some,
            r is Some ==> ints(r->0@) == spec_remove_balanced(
                ints(old_balances@),
                unmint_amount as int,
                lp_total_supply as int,
            )->0,
    {
        let ghost mo = ints(old_balances@);
        let ghost nn = mo.len() as int;
        let n_coins = old_balances.len();
        let mut amounts: Vec<u128> = Vec::new();
        let mut k: usize = 0;
        while k < n_coins
            invariant
                k <= n_coins,
                rb_upto(mo, unmint_amount as int, lp_total_supply as int, k as int) == Some(
                    ints(amounts@),
                ),
            decreases n_coins - k,
        {
            let num = match old_balances[k].checked_mul(unmint_amount as u128) {
                Some(v) => v,
                None => {
                    proof {
                        lemma_rb_none(mo, unmint_amount as int, lp_total_supply as int, k + 1, nn);
                    }
                    return None;
                },
            };
            let v = match num.checked_div(lp_total_supply as u128) {
                Some(v) => v,
                None => {
                    proof {
                        lemma_rb_none(mo, unmint_amount as int, lp_total_supply as int, k + 1, nn);
                    }
                    return None;
                },
            };
            proof {
                assert(ints(amounts@.push(v)) =~= ints(amounts@).push(v as int));
            }
            amounts.push(v);
            k = k + 1;
        }
        Some(amounts)
    }

    /// Amount of coin `i` paid out for burning `unmint_amount` shares: the
    /// invariant is reduced pro rata, the asymmetry fee is charged on every
    /// coin's expected movement, and one unit is withheld as a rounding
    /// safeguard.
    #[verifier::loop_isolation(false)]
    pub fn remove_liquidity_single_token(
        &self,
        old_balances: &[u128],
        unmint_amount: u64,
        i: u8,
        lp_total_supply: u64,
    ) -> (r: Option<u64>)
        requires
            (i as int) < old_balances@.len(),
        ensures
            opt_int64(r) == spec_remove_single(
                self.amp as int,
                self.fee_numerator as int,
                ints(old_balances@),
                unmint_amount as int,
                i as int,
                lp_total_supply as int,
            ),
    {
        let ghost mo = ints(old_balances@);
        let ghost nn = mo.len() as int;
        let n_coins = old_balances.len();
        let d0 = match self.get_d(old_balances, None) {
            Some(v) => v,
            None => {
                return None;
            },
        };
        let burn_num = match (unmint_amount as u128).checked_mul(d0) {
            Some(v) => v,
            None => {
                return None;
            },
        };
        let burn = match burn_num.checked_div(lp_total_supply as u128) {
            Some(v) => v,
            None => {
                return None;
            },
        };
        let d1 = match d0.checked_sub(burn) {
            Some(v) => v,
            None => {
                return None;
            },
        };
        let new_y = match self.get_y_d(i, old_balances, d1) {
            Some(v) => v,
            None => {
                return None;
            },
        };
        let fee_n = match self.fee_numerator.checked_mul(n_coins as u64) {
            Some(v) => v,
            None => {
                return None;
            },
        };
        let fee2 = match (fee_n / 4).checked_div(n_coins as u64 - 1) {
            Some(v) => v,
            None => {
                return None;
            },
        };
        let ghost g_fee2 = spec_fee2(self.fee_numerator as int, nn);
        proof {
            assert(g_fee2 == fee2);
        }
        let mut reduced: Vec<u128> = Vec::new();
        let mut k: usize = 0;
        while k < n_coins
            invariant
                k <= n_coins,
                reduced@.len() == k,
                red_upto(g_fee2, d0 as int, d1 as int, new_y as int, i as int, mo, k as int)
                    == Some(ints(reduced@)),
            decreases n_coins - k,
        {
            let ob = old_balances[k];
            let sc_num = match ob.checked_mul(d1) {
                Some(v) => v,
                None => {
                    proof {
                        lemma_red_none(
                            g_fee2, d0 as int, d1 as int, new_y as int, i as int, mo, k + 1, nn);
                    }
                    return None;
                },
            };
            let scaled = match sc_num.checked_div(d0) {
                Some(v) => v,
                None => {
                    proof {
                        lemma_red_none(
                            g_fee2, d0 as int, d1 as int, new_y as int, i as int, mo, k + 1, nn);
                    }
                    return None;
                },
            };
            let dxe = if k == i as usize {
                match scaled.checked_sub(new_y) {
                    Some(v) => v,
                    None => {
                        proof {
                            lemma_red_none(
                                g_fee2, d0 as int, d1 as int, new_y as int, i as int, mo, k + 1,
                                nn);
                        }
                        return None;
                    },
                }
            } else {
                match ob.checked_sub(scaled) {
                    Some(v) => v,
                    None => {
                        proof {
                            lemma_red_none(
                                g_fee2, d0 as int, d1 as int, new_y as int, i as int, mo, k + 1,
                                nn);
                        }
                        return None;
                    },
                }
            };
            let ft_num = match (fee2 as u128).checked_mul(dxe) {
                Some(v) => v,
                None => {
                    proof {
                        lemma_red_none(
                            g_fee2, d0 as int, d1 as int, new_y as int, i as int, mo, k + 1, nn);
                    }
                    return None;
                },
            };
            let ft = ft_num / (FEE_DENOMINATOR as u128);
            let rv = match ob.checked_sub(ft) {
                Some(v) => v,
                None => {
                    proof {
                        lemma_red_none(
                            g_fee2, d0 as int, d1 as int, new_y as int, i as int, mo, k + 1, nn);
                    }
                    return None;
                },
            };
            proof {
                assert(red_coin(g_fee2, d0 as int, d1 as int, new_y as int, i as int, mo, k as int)
                    == Some(rv as int));
                assert(ints(reduced@.push(rv)) =~= ints(reduced@).push(rv as int));
            }
            reduced.push(rv);
            k = k + 1;
        }
        let y2 = match self.get_y_d(i, reduced.as_slice(), d1) {
            Some(v) => v,
            None => {
                return None;
            },
        };
        let dy = match reduced[i as usize].checked_sub(y2) {
            Some(v) => v,
            None => {
                return None;
            },
        };
        // one unit is withheld so rounding can never favour the withdrawer
        let dy = match dy.checked_sub(1) {
            Some(v) => v,
            None => {
                return None;
            },
        };
        if dy <= u64::MAX as u128 {
            Some(dy as u64)
        } else {
            None
        }
    }

    /// The pool value per share, scaled by ten to `precision_factor`.
    /// `None` for an empty share supply.
    pub fn get_virtual_price(
        &self,
        balances: &[u128],
        lp_token_total: u64,
        precision_factor: u8,
    ) -> (r: Option<u64>)
        ensures
            opt_int64(r) == spec_virtual_price(
                self.amp as int,
                ints(balances@),
                lp_token_total as int,
                precision_factor as int,
            ),
    {
        let d = match self.get_d(balances, None) {
            Some(v) => v,
            None => {
                return None;
            },
        };
        let scale = match pow10_checked(precision_factor) {
            Some(v) => v,
            None => {
                return None;
            },
        };
        let vp_num = match d.checked_mul(scale) {
            Some(v) => v,
            None => {
                return None;
            },
        };
        let vp = match vp_num.checked_div(lp_token_total as u128) {
            Some(v) => v,
            None => {
                return None;
            },
        };
        if vp <= u64::MAX as u128 {
            Some(vp as u64)
        } else {
            None
        }
    }
}

/// Ten to the power `e`; `None` when it needs more than 128 bits.
#[verifier::loop_isolation(false)]
fn pow10_checked(e: u8) -> (r: Option<u128>)
    ensures
        r is Some <==> pow(10, e as nat) < pow128(),
        r is Some ==> r->0 == pow(10, e as nat),
{
    proof {
        vstd::arithmetic::power::lemma_pow0(10);
    }
    let mut acc: u128 = 1;
    let mut k: u8 = 0;
    while k < e
        invariant
            k <= e,
            acc == pow(10, k as nat),
        decreases e - k,
    {
        proof {
            vstd::arithmetic::power::lemma_pow_adds(10, k as nat, 1);
            vstd::arithmetic::power::lemma_pow1(10);
            assert(pow(10, (k + 1) as nat) == 10 * pow(10, k as nat)) by (nonlinear_arith)
                requires
                    pow(10, (k + 1) as nat) == pow(10, k as nat) * pow(10, 1),
                    pow(10, 1) == 10,
            ;
        }
        acc = match acc.checked_mul(10) {
            Some(v) => v,
            None => {
                proof {
                    vstd::arithmetic::power::lemma_pow_increases(10, (k + 1) as nat, e as nat);
                }
                return None;
            },
        };
        k = k + 1;
    }
    proof {
        vstd::arithmetic::power::lemma_pow_increases(10, 0, e as nat);
    }
    Some(acc)
}

} // verus!
