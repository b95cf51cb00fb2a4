use vstd::prelude::*;

verus! {

/// Fee charged by the external token ledger for one transfer, in e8s.
pub const TRANSFER_FEE: u64 = 10_000;

/// Smallest deposit the house accepts, in e8s.
pub const MIN_DEPOSIT: u64 = 100_000;

/// Smallest withdrawal the house pays out, in e8s.
pub const MIN_WITHDRAWAL: u64 = 100_000;

/// Largest single withdrawal, in e8s (1 000 whole tokens).
pub const MAX_WITHDRAWAL: u64 = 100_000_000_000;

/// Smallest accepted wager, in e8s.
pub const MIN_BET: u64 = 10_000;

/// Largest accepted wager, in e8s (100 whole tokens).
pub const MAX_BET: u64 = 10_000_000_000;

/// The reserve must hold at least this much before wagers are accepted.
pub const MIN_OPERATING_BALANCE: u64 = 1_000_000;

/// A single payout may take at most a tenth of the reserve.
pub const MAX_PAYOUT_DIVISOR: u64 = 10;

/// Share units burned to the sentinel holder on the first pool deposit,
/// so that no single provider can manipulate the share price.
pub const MINIMUM_LIQUIDITY: u64 = 1_000;

/// Smallest liquidity deposit accepted, in e8s.
pub const MIN_LIQUIDITY_DEPOSIT: u64 = 100_000;

/// Liquidity-withdrawal fee, in basis points (1 %).
pub const LP_WITHDRAWAL_FEE_BPS: u64 = 100;

/// One hundred percent, in basis points.
pub const BPS_DENOMINATOR: u64 = 10_000;

/// How often an uncertain transfer is retried before it is declared expired.
pub const MAX_RETRIES: u8 = 10;

/// How many pending transfers one background sweep may touch.
pub const PENDING_BATCH: usize = 50;

/// Fees below this threshold are not forwarded to the treasury.
pub const RECONCILIATION_THRESHOLD: u64 = 100_000_000;

/// A fee sweep may move at most a tenth of the cached external balance.
pub const MAX_RECONCILIATION_DIVISOR: u64 = 10;

/// Longest error text kept in an audit record, in characters.
pub const MAX_ERROR_LEN: usize = 256;

/// The share-ledger entry that holds the permanently burned liquidity.
pub const SENTINEL_HOLDER: u64 = 0;

} // verus!
