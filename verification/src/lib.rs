use vstd::prelude::*;

pub mod account;
pub mod addressing;
pub mod errors;
pub mod laws;
pub mod model;
pub mod store;

verus! {

/// Size in bytes of a persisted ledger account record.
pub const FUNDSACT_SIZE: usize = 100;

} // verus!
