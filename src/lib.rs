//! A custodial multisender for fungible tokens: users deposit whitelisted
//! tokens into a pooled account and send them out to many recipients in one
//! batch, with each outgoing transfer reconciled once its outcome is known.
//!
//! The library is the contract's state machine. The host runtime (caller
//! identity, attached deposit, asynchronous cross-contract calls) stays
//! outside: entry points take the call context as plain values and hand back
//! descriptions of the external calls to issue, and outcomes come back
//! through the reconciliation entry points.

pub mod contract;
pub mod laws;
pub mod ledger;
pub mod pairs;
pub mod user;
pub mod utils;
