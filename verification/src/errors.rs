use vstd::prelude::*;

verus! {

/// Every fault an operation of the engine can report. Each fault is raised
/// before any record or balance is mutated, so a failed operation leaves the
/// whole system exactly as it found it.
#[derive(Clone, Copy, Debug, PartialEq, Eq, Structural)]
pub enum ErrorCode {
    /// A zero amount was submitted for issuance or redemption.
    InvalidAmount,
    /// The supplied transaction identifier is longer than 64 bytes.
    TransactionIdTooLong,
    /// A transaction with this identifier was already processed.
    TransactionAlreadyProcessed,
    /// The computed reward rounds down to zero.
    RewardTooSmall,
    /// A redemption asked for more than the caller's live token balance.
    InsufficientBalance,
    /// A reward rate above 1000 basis points (10%) was requested.
    RewardRateTooHigh,
    /// A caller other than the configured administrator tried to change
    /// policy.
    Unauthorized,
    /// The singleton program state already exists.
    AlreadyInitialized,
    /// A lifetime counter would overflow; the operation is refused whole
    /// rather than letting an audit total wrap.
    ArithmeticOverflow,
}

impl ErrorCode {
    /// A human-readable description of the fault.
    pub fn message(&self) -> &'static str {
        match self {
            ErrorCode::InvalidAmount => "Invalid amount",
            ErrorCode::TransactionIdTooLong => "Transaction ID too long",
            ErrorCode::TransactionAlreadyProcessed => "Transaction already processed",
            ErrorCode::RewardTooSmall => "Reward amount too small",
            ErrorCode::InsufficientBalance => "Insufficient balance",
            ErrorCode::RewardRateTooHigh => "Reward rate too high",
            ErrorCode::Unauthorized => "Unauthorized",
            ErrorCode::AlreadyInitialized => "Already initialized",
            ErrorCode::ArithmeticOverflow => "Arithmetic overflow",
        }
    }
}

} // verus!
