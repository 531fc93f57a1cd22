//! A fungible-token ledger: per-account balances, a global supply counter,
//! delegated spending through allowances, and administrative compliance
//! gates (a pause flag and a blacklist).
//!
//! The ledger itself is a plain state machine.  The hosting environment is
//! expected to resolve the caller's identity and to deliver notifications;
//! every operation therefore takes the already-authenticated caller as an
//! argument, and the operations that notify return the notification value
//! for the host to deliver.

pub mod entries;
pub mod ledger;
pub mod types;

pub use ledger::TokenBalance;
pub use types::AccountId;
pub use types::Error;
pub use types::TokensMinted;
pub use types::TokensTransferred;
