//! Query and migration messages the pool's host dispatches.

use vstd::prelude::*;

verus! {

/// Read-only queries the pool answers.
#[derive(Clone, Debug, PartialEq, Eq)]
pub enum QueryMsg {
    Pair {},
    Pool {},
}

/// Migrations take no arguments.
#[derive(Clone, Debug, PartialEq, Eq)]
pub struct MigrateMsg {}

} // verus!
