//! Bookkeeping for token vesting: vaults funded from an administrator's
//! balance, claims against them, single and batched, and a two-step transfer
//! of administrator authority. The state is held as plain values; the
//! conservation of supply and the bounds on every vault are proved.

pub mod accounting;
pub mod batch;
pub mod claims;
pub mod contract;
pub mod index;
pub mod types;

pub use types::{Address, BatchCreateData, Vault, VestingError};
pub use contract::{LedgerView, VestingContract};
