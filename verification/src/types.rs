use vstd::prelude::*;

verus! {

/// Identity of a ledger participant: an opaque fixed-width value that is
/// only ever compared for equality.
#[derive(Clone, Copy, PartialEq, Eq, Structural, Debug)]
pub struct AccountId {
    pub id: u64,
}

/// The ways an operation can fail.  Every failure is a local validation
/// error surfaced directly to the caller.
#[derive(Clone, Copy, PartialEq, Eq, Structural, Debug)]
pub enum Error {
    /// The requested debit or spend exceeds the available balance or
    /// allowance.
    InsufficientBalance,
    /// Sender and recipient are the same account where distinct accounts
    /// are required.
    TransferToSelf,
    /// The caller lacks administrator privilege for a privileged operation.
    NotOwner,
    /// A zero amount, an arithmetic overflow on a credit, or a transfer
    /// blocked by the pause flag or the blacklist.
    InvalidAmount,
}

/// Notification handed to the host after a successful mint.
#[derive(Clone, Copy, PartialEq, Eq, Structural, Debug)]
pub struct TokensMinted {
    pub to: AccountId,
    pub amount: u128,
}

/// Notification handed to the host after a successful direct transfer.
#[derive(Clone, Copy, PartialEq, Eq, Structural, Debug)]
pub struct TokensTransferred {
    pub from: AccountId,
    pub to: AccountId,
    pub amount: u128,
}

} // verus!
