use vstd::prelude::*;

verus! {

/// Every failure an operation of the accounting core can report.
///
/// Validation and resource errors leave the state unchanged; the two
/// transfer variants describe what the external ledger answered; the
/// fatal variants mean the host must stop mutating operations.
#[derive(Clone, Copy, Debug, PartialEq, Eq, Structural)]
pub enum ErrorKind {
    /// The amount was zero.
    ZeroAmount,
    /// The amount was below the applicable minimum.
    BelowMinimum,
    /// The amount was above the applicable maximum.
    AboveMaximum,
    /// The caller's spendable balance cannot cover the request.
    InsufficientBalance,
    /// The caller holds fewer shares than it tried to burn.
    InsufficientShares,
    /// The reserve cannot cover the requested payout.
    InsufficientPoolReserve,
    /// The potential payout exceeds the per-wager cap on the reserve.
    ExceedsHousePayoutCap,
    /// The pool has never been funded.
    PoolNotInitialized,
    /// The reserve is below the operating floor, so wagers are paused.
    PoolBelowOperating,
    /// The account is locked while a wager awaits its random draw.
    AccountLocked,
    /// The caller already has a mutating operation in flight.
    ConcurrentOperation,
    /// The caller already has an unresolved outgoing transfer.
    WithdrawalInProgress,
    /// No pending transfer exists for the caller.
    NoPendingWithdrawal,
    /// A checked arithmetic step would have wrapped; nothing was changed.
    Overflow,
    /// Paying a win would underflow the reserve; the host must trap.
    PoolUnderflow,
    /// The external ledger definitively rejected the transfer.
    TransferFailed,
    /// The transfer outcome is unknown; it stays pending and is retried.
    TransferPending,
    /// The caller does not hold the administrator role this needs.
    NotAuthorized,
}

} // verus!
