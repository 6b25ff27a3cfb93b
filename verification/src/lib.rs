//! A loyalty-reward engine: idempotent reward issuance for payment
//! transactions, redemption (burning) of accrued credit, per-user lifetime
//! statistics, and an administrator-gated reward-rate policy, all over a
//! derived-address record store whose keys are computed, not indexed.

pub mod account;
pub mod errors;
pub mod laws;
pub mod ledger;
pub mod locator;
pub mod rewards;
pub mod state;
