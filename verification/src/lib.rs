//! Pricing engine for a multi-asset StableSwap-style liquidity pool.
//!
//! The engine computes the pool invariant `D` from a set of balances by
//! bounded Newton iteration, solves for a single unknown balance given `D`,
//! and derives from those two solvers the swap, deposit, withdrawal and
//! virtual-price operations. All arithmetic is unsigned, checked, and uses
//! 256-bit intermediates where products of two 128-bit values arise; every
//! operation reports overflow, underflow or division by zero as `None`.

pub mod asset;
pub mod curve;
pub mod laws;
pub mod model;
pub mod msg;
pub mod proto;
pub mod wide;

use vstd::prelude::*;

verus! {

} // verus!
