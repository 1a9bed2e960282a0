//! Checked 256-bit unsigned arithmetic built from two 128-bit halves.
//!
//! Products of two 128-bit pool quantities exceed 128 bits, so the solvers
//! carry such intermediates in a `Wide` value. Every operation either returns
//! the exact mathematical result or reports, through `Option`, that the result
//! cannot be represented.

use vstd::prelude::*;

verus! {

/// An unsigned 256-bit integer: `hi * 2^128 + lo`.
#[derive(Clone, Copy, PartialEq, Eq, Structural)]
pub struct Wide {
    pub hi: u128,
    pub lo: u128,
}

pub open spec fn pow128() -> int {
    0x100000000000000000000000000000000int
}

pub open spec fn pow256() -> int {
    0x10000000000000000000000000000000000000000000000000000000000000000int
}

impl Wide {
    /// The mathematical value represented.
    pub open spec fn val(self) -> int {
        self.hi * pow128() + self.lo
    }

    pub fn zero() -> (r: Wide)
        ensures
            r.val() == 0,
    {
        Wide { hi: 0, lo: 0 }
    }

    pub fn from_u128(x: u128) -> (r: Wide)
        ensures
            r.val() == x,
    {
        Wide { hi: 0, lo: x }
    }

    /// Narrow back to 128 bits; `None` when the value does not fit.
    pub fn to_u128(self) -> (r: Option<u128>)
        ensures
            r == if self.val() < pow128() {
                Some(self.lo)
            } else {
                None::<u128>
            },
            r is Some <==> self.val() < pow128(),
            r is Some ==> r->0 == self.val(),
    {
        proof {
            if self.hi == 0 {
                assert(self.val() == self.lo);
            } else {
                assert(self.hi * pow128() >= pow128()) by (nonlinear_arith)
                    requires self.hi >= 1;
            }
        }
        if self.hi == 0 {
            Some(self.lo)
        } else {
            None
        }
    }

    pub fn ge(self, other: Wide) -> (r: bool)
        ensures
            r == (self.val() >= other.val()),
    {
        proof {
            if self.hi < other.hi {
                assert(self.val() < other.val()) by (nonlinear_arith)
                    requires
                        self.hi < other.hi,
                        self.val() == self.hi * pow128() + self.lo,
                        other.val() == other.hi * pow128() + other.lo,
                        0 <= self.lo < pow128(),
                        0 <= other.lo < pow128();
            } else if self.hi > other.hi {
                assert(self.val() > other.val()) by (nonlinear_arith)
                    requires
                        self.hi > other.hi,
                        self.val() == self.hi * pow128() + self.lo,
                        other.val() == other.hi * pow128() + other.lo,
                        0 <= self.lo < pow128(),
                        0 <= other.lo < pow128();
            }
        }
        if self.hi != other.hi {
            self.hi > other.hi
        } else {
            self.lo >= other.lo
        }
    }

    pub fn checked_add(self, other: Wide) -> (r: Option<Wide>)
        ensures
            r is Some <==> self.val() + other.val() < pow256(),
            r is Some ==> r->0.val() == self.val() + other.val(),
    {
        let (lo, carry): (u128, u128) = if self.lo <= u128::MAX - other.lo {
            (self.lo + other.lo, 0)
        } else {
            // self.lo + other.lo == 2^128 + (self.lo - (2^128 - other.lo))
            (self.lo - (u128::MAX - other.lo) - 1, 1)
        };
        let hi1 = self.hi.checked_add(other.hi)?;
        let hi = hi1.checked_add(carry)?;
        proof {
            assert(hi * pow128() + lo == self.val() + other.val()) by (nonlinear_arith)
                requires
                    hi == self.hi + other.hi + carry,
                    carry * pow128() + lo == self.lo + other.lo,
                    self.val() == self.hi * pow128() + self.lo,
                    other.val() == other.hi * pow128() + other.lo;
            assert(hi * pow128() + lo < pow256()) by (nonlinear_arith)
                requires
                    0 <= hi < pow128(),
                    0 <= lo < pow128();
        }
        Some(Wide { hi, lo })
    }

    /// Exact product of two 128-bit values, carried in 256 bits.
    pub fn mul_u128(x: u128, y: u128) -> (r: Wide)
        ensures
            r.val() == x * y,
    {
        let c64: u128 = 0x10000000000000000;
        let x1 = x / c64;
        let x0 = x % c64;
        let y1 = y / c64;
        let y0 = y % c64;
        proof {
            assert(x1 < c64 && y1 < c64) by (nonlinear_arith)
                requires
                    c64 == 0x10000000000000000,
                    x1 == x as int / c64 as int,
                    y1 == y as int / c64 as int,
                    x <= u128::MAX,
                    y <= u128::MAX;
            assert(x1 * y1 <= (c64 - 1) * (c64 - 1) && x1 * y0 <= (c64 - 1) * (c64 - 1)
                && x0 * y1 <= (c64 - 1) * (c64 - 1) && x0 * y0 <= (c64 - 1) * (c64 - 1))
                by (nonlinear_arith)
                requires
                    x1 < c64,
                    y1 < c64,
                    x0 < c64,
                    y0 < c64,
                    c64 >= 1;
        }
        let p11 = x1 * y1;
        let p10 = x1 * y0;
        let p01 = x0 * y1;
        let p00 = x0 * y0;
        let p00_hi = p00 / c64;
        let p00_lo = p00 % c64;
        proof {
            assert(p00_hi < c64) by (nonlinear_arith)
                requires
                    c64 == 0x10000000000000000,
                    p00 <= (c64 - 1) * (c64 - 1),
                    p00_hi == p00 as int / c64 as int;
        }
        let mid1 = p10 + p00_hi;
        let (mid, carry): (u128, u128) = if mid1 <= u128::MAX - p01 {
            (mid1 + p01, 0)
        } else {
            (mid1 - (u128::MAX - p01) - 1, 1)
        };
        let mid_hi = mid / c64;
        let mid_lo = mid % c64;
        proof {
            assert(mid_hi < c64 && mid_lo < c64) by (nonlinear_arith)
                requires
                    c64 == 0x10000000000000000,
                    mid <= u128::MAX,
                    u128::MAX == c64 * c64 - 1,
                    mid_hi == mid as int / c64 as int,
                    mid_lo == mid as int % c64 as int;
            // the true product, decomposed over the pieces computed so far
            assert(x * y == (p11 + carry * c64 + mid_hi) * pow128() + (mid_lo * c64 + p00_lo))
                by (nonlinear_arith)
                requires
                    x == x1 * c64 + x0,
                    y == y1 * c64 + y0,
                    p11 == x1 * y1,
                    p10 == x1 * y0,
                    p01 == x0 * y1,
                    p00 == x0 * y0,
                    p00 == p00_hi * c64 + p00_lo,
                    carry * pow128() + mid == p10 + p00_hi + p01,
                    mid == mid_hi * c64 + mid_lo,
                    pow128() == c64 * c64;
            assert(x * y < pow256()) by (nonlinear_arith)
                requires
                    x < pow128(),
                    y < pow128(),
                    pow256() == pow128() * pow128();
            assert(p11 + carry * c64 + mid_hi < pow128()) by (nonlinear_arith)
                requires
                    x * y == (p11 + carry * c64 + mid_hi) * pow128() + (mid_lo * c64 + p00_lo),
                    x * y < pow256(),
                    pow256() == pow128() * pow128(),
                    0 <= mid_lo * c64 + p00_lo,
                    0 <= p11 + carry * c64 + mid_hi;
            assert(mid_lo * c64 + p00_lo < pow128()) by (nonlinear_arith)
                requires
                    mid_lo < c64,
                    p00_lo < c64,
                    c64 == 0x10000000000000000,
                    pow128() == c64 * c64;
        }
        let hi = p11 + carry * c64 + mid_hi;
        let lo = mid_lo * c64 + p00_lo;
        Wide { hi, lo }
    }

    /// Checked product; `None` exactly when the result needs more than 256 bits.
    pub fn checked_mul(self, other: Wide) -> (r: Option<Wide>)
        ensures
            r is Some <==> self.val() * other.val() < pow256(),
            r is Some ==> r->0.val() == self.val() * other.val(),
    {
        if self.hi != 0 && other.hi != 0 {
            proof {
                assert(self.val() * other.val() >= pow256()) by (nonlinear_arith)
                    requires
                        self.hi >= 1,
                        other.hi >= 1,
                        self.val() == self.hi * pow128() + self.lo,
                        other.val() == other.hi * pow128() + other.lo,
                        self.lo >= 0,
                        other.lo >= 0,
                        pow256() == pow128() * pow128();
            }
            return None;
        }
        // at most one high half is non-zero, so one cross product is zero
        let cross: u128 = if self.hi != 0 {
            match self.hi.checked_mul(other.lo) {
                Some(c) => c,
                None => {
                    proof {
                        assert(self.val() * other.val() >= pow256()) by (nonlinear_arith)
                            requires
                                self.hi * other.lo >= pow128(),
                                self.val() == self.hi * pow128() + self.lo,
                                other.val() == other.hi * pow128() + other.lo,
                                other.hi >= 0,
                                self.lo >= 0,
                                other.lo >= 0,
                                self.hi >= 0,
                                pow256() == pow128() * pow128();
                    }
                    return None;
                },
            }
        } else {
            match other.hi.checked_mul(self.lo) {
                Some(c) => c,
                None => {
                    proof {
                        assert(self.val() * other.val() >= pow256()) by (nonlinear_arith)
                            requires
                                other.hi * self.lo >= pow128(),
                                self.hi == 0,
                                self.val() == self.hi * pow128() + self.lo,
                                other.val() == other.hi * pow128() + other.lo,
                                self.lo >= 0,
                                other.lo >= 0,
                                other.hi >= 0,
                                pow256() == pow128() * pow128();
                    }
                    return None;
                },
            }
        };
        proof {
            assert(cross == self.hi * other.lo + other.hi * self.lo) by (nonlinear_arith)
                requires
                    self.hi == 0 || other.hi == 0,
                    (self.hi != 0 ==> cross == self.hi * other.lo),
                    (self.hi == 0 ==> cross == other.hi * self.lo);
        }
        let low = Wide::mul_u128(self.lo, other.lo);
        let hi = match cross.checked_add(low.hi) {
            Some(h) => h,
            None => {
                proof {
                    assert(self.val() * other.val() >= pow256()) by (nonlinear_arith)
                        requires
                            cross + low.hi >= pow128(),
                            cross == self.hi * other.lo + other.hi * self.lo,
                            self.hi == 0 || other.hi == 0,
                            low.val() == self.lo * other.lo,
                            low.val() == low.hi * pow128() + low.lo,
                            low.lo >= 0,
                            self.val() == self.hi * pow128() + self.lo,
                            other.val() == other.hi * pow128() + other.lo,
                            pow256() == pow128() * pow128();
                }
                return None;
            },
        };
        let r = Wide { hi, lo: low.lo };
        proof {
            assert(r.val() == self.val() * other.val()) by (nonlinear_arith)
                requires
                    r.val() == (cross + low.hi) * pow128() + low.lo,
                    cross == self.hi * other.lo + other.hi * self.lo,
                    self.hi == 0 || other.hi == 0,
                    low.val() == self.lo * other.lo,
                    low.val() == low.hi * pow128() + low.lo,
                    self.val() == self.hi * pow128() + self.lo,
                    other.val() == other.hi * pow128() + other.lo,
                    pow256() == pow128() * pow128();
            assert(r.val() < pow256()) by (nonlinear_arith)
                requires
                    r.val() == r.hi * pow128() + r.lo,
                    r.hi < pow128(),
                    r.lo < pow128(),
                    pow256() == pow128() * pow128();
        }
        Some(r)
    }

    /// Subtraction; requires the result to be non-negative.
    pub fn sub(self, other: Wide) -> (r: Wide)
        requires
            self.val() >= other.val(),
        ensures
            r.val() == self.val() - other.val(),
    {
        proof {
            if self.hi < other.hi {
                assert(self.val() < other.val()) by (nonlinear_arith)
                    requires
                        self.hi < other.hi,
                        self.val() == self.hi * pow128() + self.lo,
                        other.val() == other.hi * pow128() + other.lo,
                        0 <= self.lo < pow128(),
                        0 <= other.lo < pow128();
            } else if self.hi == other.hi && self.lo < other.lo {
                assert(self.val() < other.val());
            }
        }
        if self.lo >= other.lo {
            let r = Wide { hi: self.hi - other.hi, lo: self.lo - other.lo };
            proof {
                assert(r.val() == self.val() - other.val()) by (nonlinear_arith)
                    requires
                        r.hi == self.hi - other.hi,
                        r.lo == self.lo - other.lo,
                        self.val() == self.hi * pow128() + self.lo,
                        other.val() == other.hi * pow128() + other.lo,
                        r.val() == r.hi * pow128() + r.lo;
            }
            r
        } else {
            // borrow one unit of 2^128 from the high half
            let lo = self.lo + (u128::MAX - other.lo) + 1;
            let r = Wide { hi: self.hi - other.hi - 1, lo };
            proof {
                assert(r.val() == self.val() - other.val()) by (nonlinear_arith)
                    requires
                        r.hi == self.hi - other.hi - 1,
                        r.lo == self.lo + (u128::MAX - other.lo) + 1,
                        u128::MAX == pow128() - 1,
                        self.val() == self.hi * pow128() + self.lo,
                        other.val() == other.hi * pow128() + other.lo,
                        r.val() == r.hi * pow128() + r.lo;
            }
            r
        }
    }
    /// Shift left by one bit; the boolean reports the bit shifted out.
    pub fn shl1(self) -> (r: (bool, Wide))
        ensures
            r.1.val() == 2 * self.val() - if r.0 { pow256() } else { 0 },
            r.0 <==> 2 * self.val() >= pow256(),
            r.1.lo % 2 == 0,
    {
        let c127: u128 = 0x80000000000000000000000000000000;
        let carry = self.hi >= c127;
        proof {
            assert(self.hi % c127 < c127 && self.lo % c127 < c127 && self.lo as int / c127 as int <= 1
                && self.hi as int / c127 as int <= 1) by (nonlinear_arith)
                requires
                    c127 == 0x80000000000000000000000000000000,
                    self.hi <= u128::MAX,
                    self.lo <= u128::MAX;
        }
        let hi = (self.hi % c127) * 2 + self.lo / c127;
        let lo = (self.lo % c127) * 2;
        let w = Wide { hi, lo };
        proof {
            let cbit: int = if carry { 1 } else { 0 };
            assert(cbit == self.hi as int / c127 as int) by (nonlinear_arith)
                requires
                    c127 == 0x80000000000000000000000000000000,
                    self.hi <= u128::MAX,
                    cbit == if self.hi >= c127 { 1int } else { 0int };
            assert(w.val() == 2 * self.val() - cbit * pow256()) by (nonlinear_arith)
                requires
                    w.val() == ((self.hi % c127) * 2 + self.lo as int / c127 as int) * pow128()
                        + (self.lo % c127) * 2,
                    self.val() == self.hi * pow128() + self.lo,
                    self.hi == cbit * c127 + self.hi % c127,
                    self.lo == (self.lo as int / c127 as int) * c127 + self.lo % c127,
                    2 * c127 == pow128(),
                    pow256() == pow128() * pow128();
            assert(w.val() < pow256()) by (nonlinear_arith)
                requires
                    w.val() == w.hi * pow128() + w.lo,
                    w.hi < pow128(),
                    w.lo < pow128(),
                    pow256() == pow128() * pow128();
            assert(cbit * pow256() >= 0 && (cbit == 1 ==> 2 * self.val() == pow256() + w.val()));
        }
        (carry, w)
    }

    /// Wrapping subtraction; the boolean reports a borrow out of the top.
    pub fn sub_wrap(self, other: Wide) -> (r: (Wide, bool))
        ensures
            r.1 <==> self.val() < other.val(),
            r.0.val() == self.val() - other.val() + if r.1 { pow256() } else { 0 },
    {
        if self.ge(other) {
            (self.sub(other), false)
        } else {
            let d = other.sub(self);
            proof {
                assert(d.val() >= 1);
                if d.lo == 0 {
                    assert(d.hi >= 1);
                }
            }
            let w = if d.lo == 0 {
                Wide { hi: (u128::MAX - d.hi) + 1, lo: 0 }
            } else {
                Wide { hi: u128::MAX - d.hi, lo: (u128::MAX - d.lo) + 1 }
            };
            proof {
                assert(w.val() == pow256() - d.val()) by (nonlinear_arith)
                    requires
                        d.val() == d.hi * pow128() + d.lo,
                        1 <= d.val(),
                        w.val() == w.hi * pow128() + w.lo,
                        (d.lo == 0 ==> w.hi == u128::MAX - d.hi + 1 && w.lo == 0),
                        (d.lo != 0 ==> w.hi == u128::MAX - d.hi && w.lo == u128::MAX - d.lo + 1),
                        u128::MAX == pow128() - 1,
                        pow256() == pow128() * pow128();
            }
            (w, true)
        }
    }

    /// Exact quotient; `None` exactly on division by zero.
    pub fn checked_div(self, other: Wide) -> (r: Option<Wide>)
        ensures
            r is Some <==> other.val() != 0,
            r is Some ==> r->0.val() == self.val() / other.val(),
    {
        if other.hi == 0 && other.lo == 0 {
            return None;
        }
        proof {
            lemma_val_range(self);
            lemma_val_range(other);
            lemma_pow2_256();
            vstd::arithmetic::power2::lemma2_to64();
        }
        let mut x = self;
        let mut q = Wide::zero();
        let mut rem = Wide::zero();
        let mut k: usize = 0;
        let mut tt: Ghost<int> = Ghost(0);
        while k < 256
            invariant
                1 <= other.val() < pow256(),
                0 <= self.val() < pow256(),
                k <= 256,
                0 <= tt@ < vstd::arithmetic::power2::pow2(k as nat),
                self.val() * vstd::arithmetic::power2::pow2(k as nat)
                    == tt@ * pow256() + x.val(),
                0 <= x.val() < pow256(),
                q.val() * other.val() + rem.val() == tt@,
                0 <= rem.val() < other.val(),
                0 <= q.val(),
            decreases 256 - k,
        {
            let ghost pk = vstd::arithmetic::power2::pow2(k as nat) as int;
            let ghost q_old: int = q.val();
            let ghost rem_old: int = rem.val();
            proof {
                vstd::arithmetic::power2::lemma_pow2_adds(k as nat, 1);
                vstd::arithmetic::power2::lemma2_to64();
                lemma_pow2_256();
                if k + 1 < 256 {
                    vstd::arithmetic::power2::lemma_pow2_strictly_increases(
                        (k + 1) as nat, 256);
                }
                assert(vstd::arithmetic::power2::pow2((k + 1) as nat) == 2 * pk);
                assert(2 * pk <= pow256());
                lemma_val_range(x);
                lemma_val_range(q);
                lemma_val_range(rem);
            }
            let (xc, x2) = x.shl1();
            let ghost b: int = if xc { 1 } else { 0 };
            proof {
                lemma_val_range(x2);
                // self * 2^(k+1) == (2t + b) * 2^256 + x2
                assert(self.val() * (2 * pk) == (2 * tt@ + b) * pow256() + x2.val())
                    by (nonlinear_arith)
                    requires
                        self.val() * pk == tt@ * pow256() + x.val(),
                        x2.val() == 2 * x.val() - b * pow256(),
                        b == if xc { 1int } else { 0int };
            }
            x = x2;
            // rem <- 2*rem + b, then reduce once by the divisor if needed
            let (rc, r2pre) = rem.shl1();
            let r2 = if xc {
                Wide { hi: r2pre.hi, lo: r2pre.lo + 1 }
            } else {
                r2pre
            };
            let ghost v: int = 2 * rem_old + b;
            proof {
                assert(v == (if rc { pow256() } else { 0int }) + r2.val());
                assert(v < 2 * other.val());
            }
            let qbit: bool;
            if rc || r2.ge(other) {
                let (diff, _borrow) = r2.sub_wrap(other);
                proof {
                    if rc {
                        // the carried value exceeds the divisor, and the low
                        // half alone falls short of it
                        assert(r2.val() < other.val());
                    }
                    assert(diff.val() == v - other.val());
                }
                rem = diff;
                qbit = true;
            } else {
                rem = r2;
                qbit = false;
            }
            let ghost qb: int = if qbit { 1 } else { 0 };
            proof {
                assert(rem.val() == v - qb * other.val());
                assert(0 <= rem.val() < other.val());
                // q <= t, because q * other <= q * other + rem == t
                assert(q_old <= tt@) by (nonlinear_arith)
                    requires
                        q_old * other.val() + rem_old == tt@,
                        other.val() >= 1,
                        rem_old >= 0,
                        q_old >= 0;
            }
            let (qc, q2pre) = q.shl1();
            proof {
                assert(!qc);
            }
            let q2 = if qbit {
                Wide { hi: q2pre.hi, lo: q2pre.lo + 1 }
            } else {
                q2pre
            };
            proof {
                assert(q2.val() == 2 * q_old + qb);
                assert(q2.val() * other.val() + rem.val() == 2 * tt@ + b) by (nonlinear_arith)
                    requires
                        q2.val() == 2 * q_old + qb,
                        rem.val() == v - qb * other.val(),
                        v == 2 * rem_old + b,
                        q_old * other.val() + rem_old == tt@;
            }
            tt = Ghost(2 * tt@ + b);
            q = q2;
            k = k + 1;
        }
        proof {
            lemma_pow2_256();
            // self * 2^256 == t * 2^256 + x with 0 <= x < 2^256 forces t == self
            assert(tt@ == self.val()) by (nonlinear_arith)
                requires
                    self.val() * pow256() == tt@ * pow256() + x.val(),
                    0 <= x.val() < pow256();
            vstd::arithmetic::div_mod::lemma_fundamental_div_mod_converse(
                self.val(), other.val(), q.val(), rem.val());
        }
        Some(q)
    }

}

/// Every `Wide` value lies below 2^256.
pub proof fn lemma_val_range(w: Wide)
    ensures
        0 <= w.val() < pow256(),
{
    assert(0 <= w.val() < pow256()) by (nonlinear_arith)
        requires
            w.val() == w.hi * pow128() + w.lo,
            0 <= w.hi < pow128(),
            0 <= w.lo < pow128(),
            pow256() == pow128() * pow128();
}

/// 2^256, as the power-of-two function of the standard library.
pub proof fn lemma_pow2_256()
    ensures
        vstd::arithmetic::power2::pow2(256) == pow256(),
        vstd::arithmetic::power2::pow2(128) == pow128(),
{
    vstd::arithmetic::power2::lemma2_to64();
    vstd::arithmetic::power2::lemma_pow2_adds(64, 64);
    vstd::arithmetic::power2::lemma_pow2_adds(128, 128);
    assert(0x10000000000000000int * 0x10000000000000000int == pow128()) by (nonlinear_arith);
    assert(pow128() * pow128() == pow256()) by (nonlinear_arith);
}

} // verus!
