//! The two consensus-critical state-transition modules of a proof-of-work
//! blockchain runtime, with machine-checked contracts: a UTXO transaction
//! engine (validation, application, block rewards) and a difficulty
//! retargeting controller (a damped, clamped sliding-window filter).
//!
//! The host runtime owns the storage cells — the UTXO set, the reward pool,
//! the sample window and the current difficulty — and passes them to these
//! modules as handles, so both the chain and the tests drive the same
//! verified logic.

#![verifier::loop_isolation(false)]

use vstd::prelude::*;

pub mod codec;
pub mod crypto;
pub mod difficulty;
pub mod laws;
pub mod store;
pub mod types;
pub mod utxo;
pub mod wide;

verus! {

/// Number of samples the difficulty controller keeps: one per recent block.
pub const DIFFICULTY_ADJUST_WINDOW: u64 = 60;

/// Upper bound on the number of inputs and on the number of outputs of a transaction.
pub const MAX_TRANSACTION_PARTS: u32 = 100;

} // verus!
