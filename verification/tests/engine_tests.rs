use casino_core::dice::{dice_potential_payout, dice_win_chance, RollDirection};
use casino_core::engine::{Casino, RetryDecision, WithdrawalStatusResponse};
use casino_core::errors::ErrorKind;
use casino_core::pending::{
    classify_ledger_error, classify_rejection, FailureClass, LedgerTransferError, RejectionCode,
    TransferOutcome,
};

const T0: u64 = 1_700_000_000_000_000_000;

fn accepted(block: u64) -> TransferOutcome {
    TransferOutcome::Accepted { block_index: block }
}

fn rejected(error: LedgerTransferError) -> TransferOutcome {
    TransferOutcome::Rejected { error, detail: "ledger rejected the transfer".to_string() }
}

fn call_failed(code: RejectionCode) -> TransferOutcome {
    TransferOutcome::CallFailed { code, detail: "call failed".to_string() }
}

/// deposit(n) then withdraw_all() puts n minus the deposit fee into the
/// transfer; pool and shares stay untouched.
#[test]
fn test_deposit_then_withdraw_all_round_trip() {
    let mut c = Casino::new();
    let n = 1_000_000;
    let credited = c.apply_deposit(1, n, T0).unwrap();
    assert_eq!(credited, n - 10_000);
    assert_eq!(c.get_balance(1), 990_000);

    let reserve_before = c.get_pool_reserve();
    let w = c.withdraw_all(1, T0 + 1).unwrap();
    assert_eq!(w, 990_000);
    assert_eq!(c.get_balance(1), 0);
    assert_eq!(c.get_pool_reserve(), reserve_before);

    let done = c.apply_transfer_result(1, accepted(42), T0 + 2).unwrap();
    assert_eq!(done, 990_000);
    assert_eq!(c.get_balance(1), 0);
    assert!(c.check_pending(1).is_none());
    assert_eq!(c.get_pool_reserve(), reserve_before);
}

/// deposit_liquidity(n) then withdraw_all_liquidity() yields at most n.
#[test]
fn test_lp_round_trip() {
    let mut c = Casino::new();
    let n = 100_000_000;
    let minted = c.apply_lp_deposit(2, n, T0).unwrap();
    assert_eq!(minted, (n - 1_000) as u128);

    let net = c.withdraw_all_liquidity(2, T0 + 1).unwrap();
    // gross = 99_999_000, fee = 1 % of that, net = gross - fee
    assert_eq!(net, 99_999_000 - 999_990);
    assert!(net <= n);
    let done = c.apply_transfer_result(2, accepted(7), T0 + 2).unwrap();
    assert_eq!(done, net);
}

/// A settled wager moves exactly the signed difference between the user
/// and the pool; nothing enters or leaves the system.
#[test]
fn test_settlement_mass_preserving() {
    let mut c = Casino::new();
    c.apply_lp_deposit(2, 100_000_000, T0).unwrap();
    c.apply_deposit(1, 10_010_000, T0).unwrap();
    assert_eq!(c.get_balance(1), 10_000_000);

    let before = c.obligations_now();
    c.begin_play(1, 1_000_000, 2_000_000, T0 + 1).unwrap();
    let after_bet = c.get_balance(1);
    assert_eq!(after_bet, 9_000_000);

    let b = c.settle_play(1, 1_000_000, 2_000_000, T0 + 2).unwrap();
    assert_eq!(b, 11_000_000);
    assert_eq!(c.get_pool_reserve(), 99_000_000);
    assert_eq!(c.obligations_now(), before);
}

/// Five wagers fired against one balance across the suspension: only
/// the first may proceed; the rest observe the per-caller guard.
#[test]
fn test_concurrent_bets_same_balance() {
    let mut c = Casino::new();
    c.apply_lp_deposit(2, 100_000_000, T0).unwrap();
    c.apply_deposit(1, 1_010_000, T0).unwrap();
    assert_eq!(c.get_balance(1), 1_000_000);
    let initial_total = c.get_balance(1) + c.get_pool_reserve();

    let first = c.begin_play(1, 1_000_000, 2_000_000, T0 + 1);
    assert!(first.is_ok());
    for _ in 0..4 {
        let attempt = c.begin_play(1, 1_000_000, 2_000_000, T0 + 1);
        assert_eq!(attempt.unwrap_err(), ErrorKind::ConcurrentOperation);
    }
    // the one in-flight wager settles as a loss
    let b = c.settle_play(1, 1_000_000, 0, T0 + 2).unwrap();
    assert_eq!(b, 0);
    assert_eq!(c.get_balance(1) + c.get_pool_reserve(), initial_total);
}

/// A second wager never writes a balance captured before the first
/// one's suspension: it is refused while the first is in flight, and
/// run after it the balances compose, never overwrite.
#[test]
fn test_stale_balance_overwrites() {
    let mut c = Casino::new();
    c.apply_lp_deposit(2, 100_000_000, T0).unwrap();
    c.apply_deposit(1, 10_010_000, T0).unwrap();
    assert_eq!(c.get_balance(1), 10_000_000);

    c.begin_play(1, 3_000_000, 6_000_000, T0 + 1).unwrap();
    let second = c.begin_play(1, 5_000_000, 10_000_000, T0 + 1);
    assert_eq!(second.unwrap_err(), ErrorKind::ConcurrentOperation);

    c.settle_play(1, 3_000_000, 0, T0 + 2).unwrap();
    c.begin_play(1, 5_000_000, 10_000_000, T0 + 3).unwrap();
    let final_balance = c.settle_play(1, 5_000_000, 0, T0 + 4).unwrap();

    // both bets were deducted from fresh state: 10 - 3 - 5 (+ no payouts)
    assert_eq!(final_balance, 2_000_000);
}

/// Wagers whose potential payout exceeds the cap on a small reserve are
/// all refused; the pool cannot be drained past its cap.
#[test]
fn test_pool_drain_via_concurrent_wins() {
    let mut c = Casino::new();
    c.apply_lp_deposit(2, 1_000_000, T0).unwrap();
    c.apply_deposit(1, 20_010_000, T0).unwrap();

    for _ in 0..10 {
        let attempt = c.begin_play(1, 1_000_000, 2_000_000, T0 + 1);
        assert_eq!(attempt.unwrap_err(), ErrorKind::ExceedsHousePayoutCap);
    }
    assert_eq!(c.get_pool_reserve(), 1_000_000);
    assert_eq!(c.get_balance(1), 20_000_000);
}

/// An uncertain ledger answer keeps the pending transfer under its
/// original key; the retry that then learns the original settled — the
/// ledger's duplicate rejection of that key — completes the withdrawal.
/// The balance stays debited once; it is never debited twice and never
/// restored against funds that already left.
#[test]
fn test_uncertain_retry_idempotency() {
    let mut c = Casino::new();
    c.apply_deposit(1, 10_010_000, T0).unwrap();
    let initial = c.get_balance(1);

    c.initiate_withdrawal(1, 5_000_000, T0 + 1).unwrap();
    assert_eq!(c.get_balance(1), initial - 5_000_000);

    // the first attempt's outcome is unknown; the record survives intact
    let r = c.apply_transfer_result(1, call_failed(RejectionCode::Unknown), T0 + 2);
    assert_eq!(r.unwrap_err(), ErrorKind::TransferPending);

    // the retry must reuse the original deduplication key
    match c.begin_retry(1, T0 + 3).unwrap() {
        RetryDecision::Attempt { amount, created_at } => {
            assert_eq!(amount, 5_000_000);
            assert_eq!(created_at, T0 + 1);
        },
        RetryDecision::Expired { .. } => panic!("retry budget cannot be spent yet"),
    }

    // the original transfer had settled: the retry is answered with the
    // ledger's duplicate rejection, which completes the withdrawal
    let dup = c.apply_transfer_result(1, rejected(LedgerTransferError::Duplicate), T0 + 4);
    assert_eq!(dup.unwrap(), 5_000_000);
    assert_eq!(c.get_balance(1), initial - 5_000_000);
    assert!(c.check_pending(1).is_none());
    let info = c.get_account_info(1).unwrap();
    assert_eq!(info.total_withdrawn, 5_000_000);

    // nothing is left to resolve, and the balance never moves again
    let after = c.apply_transfer_result(1, accepted(99), T0 + 5);
    assert_eq!(after.unwrap_err(), ErrorKind::NoPendingWithdrawal);
    assert_eq!(c.get_balance(1), initial - 5_000_000);
}

/// A definite ledger rejection rolls the withdrawal back completely and
/// leaves the full story on the audit trail.
#[test]
fn test_definite_fail_rollback() {
    let mut c = Casino::new();
    c.apply_deposit(1, 10_010_000, T0).unwrap();
    let before = c.get_balance(1);

    c.initiate_withdrawal(1, 5_000_000, T0 + 1).unwrap();
    let r = c.apply_transfer_result(1, rejected(LedgerTransferError::InsufficientFunds), T0 + 2);
    assert_eq!(r.unwrap_err(), ErrorKind::TransferFailed);

    assert_eq!(c.get_balance(1), before);
    assert!(c.check_pending(1).is_none());

    let log = c.audit.get_audit_log(0, 10);
    assert_eq!(log.len(), 3);
    assert!(matches!(log[0].event_type, casino_core::audit::AuditEventType::WithdrawalInitiated));
    assert!(matches!(log[1].event_type, casino_core::audit::AuditEventType::WithdrawalFailed));
    assert!(matches!(log[2].event_type, casino_core::audit::AuditEventType::BalanceRestored));
}

/// A long run of wagers between a provider's deposit and withdrawal:
/// the obligations move only with external flows, and the provider
/// leaves with the reserve's profit or loss share, never with minted
/// funds.
#[test]
fn test_lp_round_trip_with_house_activity() {
    let mut c = Casino::new();
    c.apply_lp_deposit(9, 100_000_000, T0).unwrap();
    c.apply_deposit(1, 50_010_000, T0).unwrap();

    let obligations_before = c.obligations_now();
    let mut seed: u64 = 0x2545F4914F6CDD1D;
    for k in 0..1_000u64 {
        seed = seed.wrapping_mul(6364136223846793005).wrapping_add(1442695040888963407);
        let bet = 10_000 + (seed % 90_000);
        let win = seed % 3 == 0;
        let payout = if win { bet * 2 } else { 0 };
        if c.begin_play(1, bet, bet * 2, T0 + k).is_ok() {
            c.settle_play(1, bet, payout, T0 + k).unwrap();
        }
    }
    assert_eq!(c.obligations_now(), obligations_before);

    let net = c.withdraw_all_liquidity(9, T0 + 5_000).unwrap();
    let stats = c.get_pool_stats();
    // only the permanently burned minimum liquidity remains as shares
    assert_eq!(stats.total_shares, 1_000);
    c.apply_transfer_result(9, accepted(1), T0 + 5_001).unwrap();
    assert_eq!(c.obligations_now(), obligations_before - net);
}

/// The authoritative failure classification.
#[test]
fn test_transfer_error_classification() {
    for e in [
        LedgerTransferError::BadFee,
        LedgerTransferError::BadBurn,
        LedgerTransferError::InsufficientFunds,
        LedgerTransferError::InsufficientAllowance,
        LedgerTransferError::TooOld,
        LedgerTransferError::CreatedInFuture,
        LedgerTransferError::BadRequest,
        LedgerTransferError::DestinationInvalid,
        LedgerTransferError::GenericError,
    ] {
        assert_eq!(classify_ledger_error(e), FailureClass::Definite);
    }
    assert_eq!(
        classify_ledger_error(LedgerTransferError::TemporarilyUnavailable),
        FailureClass::Uncertain
    );
    // a duplicate of the reused key means the transfer already settled
    assert_eq!(
        classify_ledger_error(LedgerTransferError::Duplicate),
        FailureClass::AlreadyCompleted
    );

    assert_eq!(classify_rejection(RejectionCode::SysTransient), FailureClass::Uncertain);
    assert_eq!(classify_rejection(RejectionCode::Unknown), FailureClass::Uncertain);
    assert_eq!(classify_rejection(RejectionCode::SysFatal), FailureClass::Definite);
    assert_eq!(classify_rejection(RejectionCode::DestinationInvalid), FailureClass::Definite);
    assert_eq!(classify_rejection(RejectionCode::CanisterReject), FailureClass::Definite);
    assert_eq!(classify_rejection(RejectionCode::CanisterError), FailureClass::Definite);
}

/// Every validation and resource error on the inputs that cause it.
#[test]
fn test_error_variants() {
    let mut c = Casino::new();

    assert_eq!(c.apply_deposit(1, 1, T0).unwrap_err(), ErrorKind::BelowMinimum);
    assert_eq!(c.withdraw_all(1, T0).unwrap_err(), ErrorKind::ZeroAmount);
    assert_eq!(c.initiate_withdrawal(1, 1, T0).unwrap_err(), ErrorKind::BelowMinimum);
    assert_eq!(
        c.initiate_withdrawal(1, 200_000_000_000, T0).unwrap_err(),
        ErrorKind::AboveMaximum
    );
    assert_eq!(
        c.initiate_withdrawal(1, 100_000, T0).unwrap_err(),
        ErrorKind::InsufficientBalance
    );
    assert_eq!(c.begin_play(1, 1_000, 0, T0).unwrap_err(), ErrorKind::BelowMinimum);
    assert_eq!(
        c.begin_play(1, 20_000_000_000, 0, T0).unwrap_err(),
        ErrorKind::AboveMaximum
    );
    assert_eq!(c.begin_play(1, 100_000, 0, T0).unwrap_err(), ErrorKind::PoolBelowOperating);
    assert_eq!(c.withdraw_all_liquidity(3, T0).unwrap_err(), ErrorKind::InsufficientShares);
    assert_eq!(
        c.apply_transfer_result(1, accepted(1), T0).unwrap_err(),
        ErrorKind::NoPendingWithdrawal
    );
    assert_eq!(c.begin_retry(1, T0).unwrap_err(), ErrorKind::NoPendingWithdrawal);
    assert_eq!(c.apply_lp_deposit(2, 1, T0).unwrap_err(), ErrorKind::BelowMinimum);

    // a locked account can neither withdraw nor wager again
    c.apply_lp_deposit(2, 100_000_000, T0).unwrap();
    c.apply_deposit(1, 10_010_000, T0).unwrap();
    c.begin_play(1, 1_000_000, 0, T0).unwrap();
    assert_eq!(
        c.initiate_withdrawal(1, 1_000_000, T0).unwrap_err(),
        ErrorKind::AccountLocked
    );
    // an impossible payout is the fatal insolvency, refused untouched
    assert_eq!(
        c.settle_play(1, 1_000_000, 300_000_000, T0).unwrap_err(),
        ErrorKind::PoolUnderflow
    );
    c.fail_play(1, 1_000_000, T0).unwrap();
    assert_eq!(c.get_balance(1), 10_000_000);

    // a pending withdrawal blocks any further withdrawal of any kind
    c.initiate_withdrawal(1, 5_000_000, T0).unwrap();
    assert_eq!(
        c.initiate_withdrawal(1, 1_000_000, T0).unwrap_err(),
        ErrorKind::WithdrawalInProgress
    );
    assert_eq!(c.withdraw_all(1, T0).unwrap_err(), ErrorKind::WithdrawalInProgress);
}

/// Checked arithmetic refuses what would wrap, changing nothing.
#[test]
fn test_max_u64_overflow_protection() {
    let mut c = Casino::new();
    c.apply_deposit(1, u64::MAX, T0).unwrap();
    let balance = c.get_balance(1);
    assert_eq!(balance, u64::MAX - 10_000);

    let second = c.apply_deposit(1, 1_000_000, T0);
    assert_eq!(second.unwrap_err(), ErrorKind::Overflow);
    assert_eq!(c.get_balance(1), balance);
}

/// A pending transfer expires after the retry budget and rolls back.
#[test]
fn test_retry_expiration() {
    let mut c = Casino::new();
    c.apply_deposit(1, 10_010_000, T0).unwrap();
    let before = c.get_balance(1);
    c.initiate_withdrawal(1, 5_000_000, T0).unwrap();

    for k in 0..10 {
        let r = c.apply_transfer_result(1, call_failed(RejectionCode::SysTransient), T0 + k);
        assert_eq!(r.unwrap_err(), ErrorKind::TransferPending);
    }
    match c.get_withdrawal_status(1) {
        WithdrawalStatusResponse::Pending { amount, retries, last_error } => {
            assert_eq!(amount, 5_000_000);
            assert_eq!(retries, 10);
            assert!(last_error.is_some());
        },
        WithdrawalStatusResponse::Absent => panic!("the transfer must still be pending"),
    }

    match c.begin_retry(1, T0 + 100).unwrap() {
        RetryDecision::Expired { amount } => assert_eq!(amount, 5_000_000),
        RetryDecision::Attempt { .. } => panic!("the retry budget is spent"),
    }
    assert_eq!(c.get_balance(1), before);
    assert!(c.check_pending(1).is_none());
    let log = c.audit.get_audit_log(0, 100);
    assert!(log.iter().any(|e| matches!(
        e.event_type,
        casino_core::audit::AuditEventType::WithdrawalExpired
    )));
}

/// Fees are forwarded only above the threshold and only up to a tenth
/// of the cached external balance.
#[test]
fn test_fee_sweep() {
    let mut c = Casino::new();
    c.apply_lp_deposit(2, 20_000_000_000, T0).unwrap();
    let net = c.withdraw_all_liquidity(2, T0 + 1).unwrap();
    c.apply_transfer_result(2, accepted(5), T0 + 2).unwrap();
    // 1 % of the gross redemption accrued on completion
    let stats = c.get_accounting_stats();
    assert_eq!(stats.total_user_deposits, 0);
    assert!(c.fee_sweep_amount().is_some());

    // nothing may move while the cached balance reads zero
    assert_eq!(c.fee_sweep_amount().unwrap(), 0);

    c.record_balance_refresh(30_000_000_000, T0 + 3);
    let amount = c.fee_sweep_amount().unwrap();
    assert!(amount > 0);
    c.apply_fee_sweep(amount).unwrap();
    assert!(c.fee_sweep_amount().is_none());
    let _ = net;
}

/// The background sweep cannot re-enter itself.
#[test]
fn test_processing_flag() {
    let mut c = Casino::new();
    assert!(c.begin_processing());
    assert!(!c.begin_processing());
    c.end_processing();
    assert!(c.begin_processing());
    c.end_processing();
}

/// The solvency report computes the actual inequality.
#[test]
fn test_verify_reserves() {
    let mut c = Casino::new();
    c.apply_deposit(1, 1_000_000, T0).unwrap();
    let report = c.verify_reserves(T0 + 1);
    assert_eq!(report.total_user_balances, 990_000);
    assert!(!report.is_solvent);
    c.record_balance_refresh(990_000, T0 + 2);
    let report = c.verify_reserves(T0 + 3);
    assert!(report.is_solvent);
    assert_eq!(report.timestamp, T0 + 3);
}

/// The cache-staleness rules.
#[test]
fn test_balance_cache() {
    let mut c = Casino::new();
    assert!(c.is_cache_stale(T0, 3_600_000_000_000));
    assert_eq!(c.get_balance_cache_age(T0), u64::MAX);
    c.record_balance_refresh(5, T0);
    assert_eq!(c.get_balance_cache_age(T0 + 100), 100);
    assert!(!c.is_cache_stale(T0 + 100, 3_600_000_000_000));
    assert!(c.is_cache_stale(T0 + 4_000_000_000_000, 3_600_000_000_000));
    assert!(casino_core::is_balance_cache_stale(0, T0, 1));
}

/// Boundary amounts: exact minimums pass, one unit below fails.
#[test]
fn test_boundaries() {
    let mut c = Casino::new();
    assert_eq!(c.apply_deposit(1, 99_999, T0).unwrap_err(), ErrorKind::BelowMinimum);
    assert!(c.apply_deposit(1, 100_000, T0).is_ok());

    assert_eq!(c.apply_lp_deposit(2, 99_999, T0).unwrap_err(), ErrorKind::BelowMinimum);
    let minted = c.apply_lp_deposit(2, 100_000, T0).unwrap();
    assert_eq!(minted, 99_000); // the first deposit burns the minimum liquidity

    c.apply_deposit(1, 10_010_000, T0).unwrap();
    assert_eq!(c.initiate_withdrawal(1, 99_999, T0).unwrap_err(), ErrorKind::BelowMinimum);
    assert!(c.initiate_withdrawal(1, 100_000, T0).is_ok());
}

/// Lifetime counters across a settled wager.
#[test]
fn test_casino_stats() {
    let mut c = Casino::new();
    c.apply_lp_deposit(2, 100_000_000, T0).unwrap();
    c.apply_deposit(1, 10_010_000, T0).unwrap();
    c.begin_play(1, 1_000_000, 2_000_000, T0).unwrap();
    c.settle_play(1, 1_000_000, 2_000_000, T0).unwrap();

    let stats = c.get_casino_stats();
    assert_eq!(stats.total_users, 1);
    assert_eq!(stats.total_deposits, 10_000_000);
    assert_eq!(stats.total_volume, 1_000_000);
    assert_eq!(stats.house_profit, -1_000_000);

    let info = c.get_account_info(1).unwrap();
    assert_eq!(info.total_wagered, 1_000_000);
    assert!(!info.is_locked);

    let pos = c.get_lp_position(2);
    assert_eq!(pos.shares, 99_999_000);
    assert_eq!(c.update_balance(1, 123, T0), Ok(()));
    assert_eq!(c.get_balance(1), 123);
}

/// Abandoning an unresolved withdrawal restores the funds in full.
#[test]
fn test_abandon_withdrawal() {
    let mut c = Casino::new();
    c.apply_deposit(1, 10_010_000, T0).unwrap();
    let before = c.get_balance(1);
    assert_eq!(c.abandon_withdrawal(1, T0).unwrap_err(), ErrorKind::NoPendingWithdrawal);

    c.initiate_withdrawal(1, 5_000_000, T0 + 1).unwrap();
    c.apply_transfer_result(1, call_failed(RejectionCode::Unknown), T0 + 2).unwrap_err();
    let restored = c.abandon_withdrawal(1, T0 + 3).unwrap();
    assert_eq!(restored, 5_000_000);
    assert_eq!(c.get_balance(1), before);
    assert!(c.check_pending(1).is_none());
}

/// A duplicate rejection on the very first resolution also completes:
/// the host may deliver the attempt and lose only the answer.
#[test]
fn test_duplicate_completes_without_retry() {
    let mut c = Casino::new();
    c.apply_deposit(1, 10_010_000, T0).unwrap();
    let initial = c.get_balance(1);
    c.initiate_withdrawal(1, 5_000_000, T0 + 1).unwrap();

    let done = c.apply_transfer_result(1, rejected(LedgerTransferError::Duplicate), T0 + 2);
    assert_eq!(done.unwrap(), 5_000_000);
    assert_eq!(c.get_balance(1), initial - 5_000_000);
    assert!(c.check_pending(1).is_none());
}

/// The configuration rules: the first claim takes the administrator
/// role, later changes need it, and so does repointing the treasury.
#[test]
fn test_config_admin_rules() {
    let mut cfg = casino_core::config::Config::new(77);
    assert_eq!(cfg.get_parent_canister(), 77);
    assert!(!cfg.is_admin(1));

    // the treasury cannot move while no administrator exists
    assert_eq!(cfg.update_parent_canister(1, 88).unwrap_err(), ErrorKind::NotAuthorized);

    // the first claim succeeds; a stranger's takeover does not
    cfg.set_admin(1, 1).unwrap();
    assert!(cfg.is_admin(1));
    assert_eq!(cfg.set_admin(2, 2).unwrap_err(), ErrorKind::NotAuthorized);

    // the administrator repoints the treasury and hands the role over
    cfg.update_parent_canister(1, 88).unwrap();
    assert_eq!(cfg.get_parent_canister(), 88);
    cfg.set_admin(1, 2).unwrap();
    assert!(cfg.is_admin(2));
    assert!(!cfg.is_admin(1));
    assert_eq!(cfg.get_admin(), Some(2));
}

/// The dice payout cap: exact values of the 0.99-scaled fair return.
#[test]
fn test_dice_potential_payout() {
    // target 50: either way a 49 or 50 percent chance
    assert_eq!(dice_win_chance(50, RollDirection::Over).unwrap(), 49);
    assert_eq!(dice_win_chance(50, RollDirection::Under).unwrap(), 50);

    // 1_000_000 at 50 percent pays at most 1.98x
    assert_eq!(
        dice_potential_payout(1_000_000, 50, RollDirection::Under).unwrap(),
        1_980_000
    );
    // the longest odds pay at most 99x
    assert_eq!(
        dice_potential_payout(1_000_000, 98, RollDirection::Over).unwrap(),
        9_900_000_000 / 100
    );
    assert_eq!(
        dice_potential_payout(1, 0, RollDirection::Over).unwrap_err(),
        ErrorKind::BelowMinimum
    );
    assert_eq!(
        dice_potential_payout(1, 99, RollDirection::Over).unwrap_err(),
        ErrorKind::AboveMaximum
    );
}
