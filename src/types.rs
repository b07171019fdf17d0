use vstd::prelude::*;

verus! {

/// An authenticated identity, as supplied by the host environment.
#[derive(Clone, Copy, Debug, PartialEq, Eq, Structural)]
pub struct Address {
    pub id: u64,
}

/// One beneficiary's entitlement.
#[derive(Clone, Copy, Debug, PartialEq, Eq, Structural)]
pub struct Vault {
    pub owner: Address,
    pub total_amount: i128,
    pub released_amount: i128,
    pub start_time: u64,
    pub end_time: u64,
    pub is_initialized: bool,
}

/// The inputs of a batched vault creation, index-aligned.
pub struct BatchCreateData {
    pub recipients: Vec<Address>,
    pub amounts: Vec<i128>,
    pub start_times: Vec<u64>,
    pub end_times: Vec<u64>,
}

/// Why an operation was refused. A refused operation changes nothing.
#[derive(Clone, Copy, Debug, PartialEq, Eq, Structural)]
pub enum VestingError {
    Unauthorized,
    NotInitialized,
    AlreadyInitialized,
    NotFound,
    InvalidAmount,
    InsufficientBalance,
    InsufficientVaultBalance,
    LengthMismatch,
    EmptyBatch,
    NoProposal,
    IdSpaceExhausted,
}

impl Vault {
    /// Amount still locked in the vault.
    pub open spec fn locked(self) -> int {
        self.total_amount - self.released_amount
    }

    /// A vault whose released amount lies between zero and its total.
    pub open spec fn well_formed(self) -> bool {
        0 <= self.released_amount <= self.total_amount
    }

    /// Amount still claimable from a well-formed vault.
    pub fn available(&self) -> (r: i128)
        requires
            self.well_formed(),
        ensures
            r == self.locked(),
            r >= 0,
    {
        self.total_amount - self.released_amount
    }
}

} // verus!
