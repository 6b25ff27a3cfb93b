use vstd::prelude::*;

use crate::account::AccountId;

verus! {

/// The singleton policy and audit record of a deployment: the reward token's
/// identity, the authority allowed to mint it, running audit totals, the
/// reward rate in basis points, and the administrator allowed to change it.
#[derive(Clone, Copy, Debug, PartialEq, Eq, Structural)]
pub struct ProgramState {
    pub mint: AccountId,
    pub mint_authority: AccountId,
    pub total_minted: u64,
    pub total_transactions: u64,
    /// Basis points (100 = 1%); at most 1000 (10%).
    pub reward_rate: u16,
    pub admin: AccountId,
}

/// The permanent audit record of one processed transaction, written exactly
/// once and never mutated or deleted afterwards.
#[derive(Clone, Debug, PartialEq, Eq)]
pub struct TransactionRecord {
    /// Externally supplied identifier, at most 64 bytes.
    pub transaction_id: Vec<u8>,
    pub user: AccountId,
    pub amount: u64,
    pub reward_amount: u64,
    pub timestamp: i64,
    pub is_processed: bool,
}

/// Lifetime earn/redeem statistics of one user, created lazily on first
/// issuance and never deleted.
#[derive(Clone, Copy, Debug, PartialEq, Eq, Structural)]
pub struct UserRewards {
    pub user: AccountId,
    pub total_earned: u64,
    pub total_redeemed: u64,
    pub transaction_count: u64,
}

/// Read-only projection of a user's statistics combined with their live
/// ledger balance.
#[derive(Clone, Copy, Debug, PartialEq, Eq, Structural)]
pub struct UserStats {
    pub total_earned: u64,
    pub total_redeemed: u64,
    pub current_balance: u64,
    pub transaction_count: u64,
}

/// Notification handed to external observers when a reward is issued.
#[derive(Clone, Debug, PartialEq, Eq)]
pub struct RewardMinted {
    pub user: AccountId,
    pub transaction_id: Vec<u8>,
    pub amount: u64,
    pub reward_amount: u64,
    pub timestamp: i64,
}

/// Notification handed to external observers when credit is redeemed.
#[derive(Clone, Copy, Debug, PartialEq, Eq, Structural)]
pub struct RewardRedeemed {
    pub user: AccountId,
    pub amount: u64,
    pub timestamp: i64,
}

} // verus!
