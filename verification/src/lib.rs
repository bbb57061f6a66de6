//! A constant-product automated-market-maker pool engine.
//!
//! The pool manages a two-asset liquidity reserve, issues fungible liquidity
//! shares, enforces the constant-product invariant on every trade, and keeps a
//! time-weighted price oracle — all in fixed-width, overflow-checked integer
//! arithmetic. External effects (reading the pooled tokens' balances, sending
//! tokens out) are the host's business: every operation takes the observed
//! balances as plain values and returns the transfer obligations it incurs.

use vstd::prelude::*;

pub mod laws;
pub mod ledger;
pub mod math;
pub mod nameservice;
pub mod nft;
pub mod pair;

verus! {

/// An account on the host ledger, reduced to a plain identifier.
pub type AccountId = u128;

/// An asset or share amount.
pub type Balance = u128;

/// A seconds-resolution timestamp.
pub type Timestamp = u64;

/// The reserved, permanently-unspendable holder of the genesis share burn.
pub const NULL_ACCOUNT: AccountId = 0;

} // verus!
