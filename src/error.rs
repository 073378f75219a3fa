use vstd::prelude::*;

verus! {

/// The ways a ledger operation can be rejected. Every rejection leaves both
/// ledgers exactly as they were.
#[derive(Debug, Clone, Copy, PartialEq, Eq, Structural)]
pub enum ErrorCode {
    /// A checked add, subtract, multiply or divide left the representable range.
    ArithmeticError,
    /// The depositor's share exponent is ahead of the pool's, or the two differ
    /// where they must match.
    InvalidRebase,
    /// A deposit into a pool that has shares outstanding but no measured value.
    InvalidDepositIntoEmptyVault,
    /// A withdrawal request while another one is pending.
    RequestAlreadyInProgress,
    /// A withdrawal request for zero shares, for more shares than are held, or
    /// whose value is not strictly below the pool's value.
    InvalidWithdrawSize,
    /// The shares forfeited on cancellation could not be computed consistently.
    InvalidSharesDetected,
    /// A withdrawal finalized before the redeem period elapsed.
    RedeemPeriodNotElapsed,
    /// A withdrawal finalized with no request pending.
    NoActiveRequest,
    /// A withdrawal finalized for more shares than the depositor holds.
    InsufficientShares,
}

} // verus!
