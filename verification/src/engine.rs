use vstd::prelude::*;

use crate::audit::{AuditEventType, AuditLog};
use crate::constants::{
    MAX_BET, MAX_RECONCILIATION_DIVISOR, MAX_RETRIES, MAX_WITHDRAWAL, MIN_BET, MIN_DEPOSIT,
    MIN_OPERATING_BALANCE, MIN_WITHDRAWAL, RECONCILIATION_THRESHOLD, SENTINEL_HOLDER,
    TRANSFER_FEE,
};
use crate::errors::ErrorKind;
use crate::guard::OperationGuard;
use crate::ledger::{others_unchanged, Ledger, UserAccount};
use crate::pending::{
    classify_ledger_error, classify_rejection, FailureClass, PendingMap, PendingWithdrawal,
    TransferOutcome, WithdrawalType,
};
use crate::pool::{LiquidityPool, LPPosition, PoolStats};

verus! {

/// Lifetime counters over the whole house.
#[derive(Clone, Copy, Debug, PartialEq, Eq, Structural)]
pub struct CasinoStats {
    pub total_users: u64,
    pub total_deposits: u64,
    pub total_withdrawals: u64,
    pub total_volume: u64,
    pub house_profit: i64,
}

/// A snapshot of the custodial bookkeeping.
#[derive(Clone, Copy, Debug, PartialEq, Eq, Structural)]
pub struct AccountingStats {
    pub total_user_deposits: u64,
    pub house_balance: u64,
    pub canister_balance: u64,
    pub unique_depositors: u64,
}

/// The solvency report: the actual inequality, never a constant.
#[derive(Clone, Copy, Debug, PartialEq, Eq, Structural)]
pub struct ReservesReport {
    pub total_user_balances: u64,
    pub is_solvent: bool,
    pub timestamp: u64,
}

/// The caller-visible state of an unresolved withdrawal.
#[derive(Debug)]
pub enum WithdrawalStatusResponse {
    Absent,
    Pending { amount: u64, retries: u8, last_error: Option<String> },
}

/// What the background sweep decides for one pending transfer.
#[derive(Clone, Copy, Debug, PartialEq, Eq, Structural)]
pub enum RetryDecision {
    /// Re-issue the transfer, reusing the original deduplication key.
    Attempt { amount: u64, created_at: u64 },
    /// The retry budget is spent; the funds were restored.
    Expired { amount: u64 },
}

/// The accounting and settlement core: user balances, the reserve pool
/// and its shares, the pending-transfer state machine, the per-caller
/// guard, and the audit log, all inside one actor.
///
/// Every operation here runs inside a single turn of that actor: whatever
/// suspends (a ledger call, a random draw) happens outside, between two
/// calls into this state. Each operation therefore re-reads whatever it
/// needs from the present state; nothing carries a stale balance across
/// a suspension.
pub struct Casino {
    pub ledger: Ledger,
    pub pool: LiquidityPool,
    pub pending: PendingMap,
    pub guard: OperationGuard,
    pub audit: AuditLog,
    /// Fees owed to the parent treasury and not yet forwarded.
    pub pending_fees_to_parent: u64,
    /// The last answer of the external ledger's balance query.
    pub cached_balance: u64,
    pub last_balance_refresh: u64,
    /// Blocks re-entry of the background retry sweep.
    pub processing: bool,
    pub stat_deposits: u64,
    pub stat_withdrawals: u64,
    pub stat_volume: u64,
    pub stat_house_gain: u64,
    pub stat_house_paid: u64,
}

impl Casino {
    /// Everything the house owes or holds on behalf of someone: user
    /// balances, the reserve, unresolved outgoing transfers, and fees not
    /// yet forwarded. External deposits raise it, completed withdrawals
    /// and fee sweeps lower it, and every internal move leaves it alone.
    pub open spec fn obligations(self) -> int {
        self.ledger.total() + self.pool.reserve + self.pending.total_obligation()
            + self.pending_fees_to_parent
    }

    /// Well-formed: every component invariant; the obligations within
    /// the 64-bit range the external token keeps; every pending user
    /// withdrawal owned by an existing account (so it can be unwound);
    /// and the pool lifecycle facts — shares exist exactly once the pool
    /// was initialized, an uninitialized pool holds no reserve, the
    /// burned sentinel minimum never leaves, and neither a wager in
    /// flight nor a pending provider withdrawal can predate the pool.
    pub open spec fn wf(self) -> bool {
        &&& self.ledger.wf()
        &&& self.pool.wf()
        &&& self.pending.wf()
        &&& self.guard.wf()
        &&& self.obligations() <= u64::MAX
        &&& forall|q: u64|
            #[trigger] self.pending.has_pending(q) && self.pending.pending_of(
                q,
            ).withdrawal_type is User ==> self.ledger.has_account(q)
        &&& (self.pool.total > 0 <==> self.pool.initialized)
        &&& (!self.pool.initialized ==> self.pool.reserve == 0)
        &&& (self.pool.initialized ==> self.pool.shares_of(SENTINEL_HOLDER)
            >= crate::constants::MINIMUM_LIQUIDITY)
        &&& forall|q: u64| #[trigger] self.guard.holds(q) ==> self.pool.initialized
        &&& forall|q: u64|
            #[trigger] self.pending.has_pending(q) && self.pending.pending_of(
                q,
            ).withdrawal_type is LP ==> self.pool.initialized
    }

    /// A fresh, empty core: the guard set is rebuilt empty on every boot.
    pub fn new() -> (r: Casino)
        ensures
            r.wf(),
            r.obligations() == 0,
            r.audit.entries@.len() == 0,
            r.ledger.accounts@.len() == 0,
            r.pending.entries@.len() == 0,
            r.pool.entries@.len() == 0,
            r.guard.active@.len() == 0,
            forall|q: u64| !r.ledger.has_account(q),
            forall|q: u64| !r.pending.has_pending(q),
            forall|q: u64| !r.guard.holds(q),
            forall|q: u64| r.pool.shares_of(q) == 0,
            r.pool.reserve == 0,
            !r.processing,
            r.cached_balance == 0 && r.last_balance_refresh == 0,
    {
        Casino {
            ledger: Ledger::new(),
            pool: LiquidityPool::new(),
            pending: PendingMap::new(),
            guard: OperationGuard::new(),
            audit: AuditLog::new(),
            pending_fees_to_parent: 0,
            cached_balance: 0,
            last_balance_refresh: 0,
            processing: false,
            stat_deposits: 0,
            stat_withdrawals: 0,
            stat_volume: 0,
            stat_house_gain: 0,
            stat_house_paid: 0,
        }
    }

    /// The current obligations, recomputed from the live state.
    pub fn obligations_now(&self) -> (r: u64)
        requires
            self.wf(),
        ensures
            r == self.obligations(),
    {
        proof {
            crate::ledger::lemma_sum_nonneg(self.ledger.accounts@);
            crate::pending::lemma_sum_pending_nonneg(self.pending.entries@);
        }
        let users = self.ledger.calculate_total_deposits();
        let reserve = self.pool.get_pool_reserve();
        let pend = self.pending.total_obligation_now();
        users + reserve + pend + self.pending_fees_to_parent
    }

    /// The caller's spendable balance (zero before the first deposit).
    pub fn get_balance(&self, p: u64) -> (r: u64)
        requires
            self.wf(),
        ensures
            r == self.ledger.balance_of(p),
    {
        self.ledger.get_balance(p)
    }

    /// The caller's full account record.
    pub fn get_account_info(&self, p: u64) -> (r: Option<UserAccount>)
        requires
            self.wf(),
        ensures
            match r {
                Some(a) => self.ledger.has_account(p) && a == self.ledger.account_of(p),
                None => !self.ledger.has_account(p),
            },
    {
        self.ledger.get_account(p)
    }

    /// Whether a deposit of `amount` would be accepted; the app checks
    /// this before it pulls any funds from the external ledger.
    pub fn validate_deposit(amount: u64) -> (r: Result<(), ErrorKind>)
        ensures
            r is Ok <==> amount >= MIN_DEPOSIT,
            r is Err ==> r == Result::<(), ErrorKind>::Err(ErrorKind::BelowMinimum),
    {
        if amount < MIN_DEPOSIT {
            Err(ErrorKind::BelowMinimum)
        } else {
            Ok(())
        }
    }

    /// Book a deposit whose external transfer has already settled: the
    /// caller is credited `amount` minus the ledger's transfer fee.
    pub fn apply_deposit(&mut self, p: u64, amount: u64, now: u64) -> (r: Result<u64, ErrorKind>)
        requires
            old(self).wf(),
        ensures
            final(self).wf(),
            r is Ok <==> {
                &&& amount >= MIN_DEPOSIT
                &&& old(self).obligations() + (amount - TRANSFER_FEE) <= u64::MAX
                &&& (old(self).ledger.has_account(p) ==> old(self).ledger.account_of(
                    p,
                ).total_deposited + (amount - TRANSFER_FEE) <= u64::MAX)
            },
            match r {
                Ok(b) => {
                    &&& amount >= MIN_DEPOSIT
                    &&& deposit_applied(*old(self), *final(self), p, amount, now)
                    &&& b == final(self).ledger.balance_of(p)
                },
                Err(e) => {
                    &&& *final(self) == *old(self)
                    &&& (e == ErrorKind::BelowMinimum || e == ErrorKind::Overflow)
                    &&& (e == ErrorKind::BelowMinimum <==> amount < MIN_DEPOSIT)
                },
            },
    {
        if amount < MIN_DEPOSIT {
            return Err(ErrorKind::BelowMinimum);
        }
        let credited = amount - TRANSFER_FEE;
        let head = self.obligations_now();
        if credited > u64::MAX - head {
            return Err(ErrorKind::Overflow);
        }
        let ghost pre = *self;
        let b = match self.ledger.credit_deposit(p, credited, now) {
            Ok(b) => b,
            Err(e) => {
                proof {
                    // the balance itself cannot be what wrapped: it sits
                    // inside the obligations the headroom check covered
                    crate::ledger::lemma_balance_le_sum(self.ledger.accounts@, p);
                    crate::pending::lemma_sum_pending_nonneg(self.pending.entries@);
                }
                return Err(e);
            },
        };
        self.stat_deposits = self.stat_deposits.saturating_add(credited);
        proof {
            lemma_wf_after_ledger_only(pre, *self);
        }
        Ok(b)
    }

    /// Start a withdrawal of exactly `amount`: in one atomic step the
    /// balance is debited and the pending record is created, keyed by
    /// `now`; only then may the app call the external ledger.
    pub fn initiate_withdrawal(&mut self, p: u64, amount: u64, now: u64) -> (r: Result<
        u64,
        ErrorKind,
    >)
        requires
            old(self).wf(),
        ensures
            final(self).wf(),
            r is Ok <==> spec_withdraw_check(*old(self), p, amount, true) is None,
            match r {
                Ok(a) => {
                    &&& a == amount
                    &&& withdrawal_initiated(*old(self), *final(self), p, amount, now)
                },
                Err(e) => {
                    &&& *final(self) == *old(self)
                    &&& Some(e) == spec_withdraw_check(*old(self), p, amount, true)
                },
            },
    {
        match self.withdraw_internal(p, amount, now, true) {
            Ok(()) => Ok(amount),
            Err(e) => Err(e),
        }
    }

    /// Withdraw the whole balance, with the same atomic initiation.
    pub fn withdraw_all(&mut self, p: u64, now: u64) -> (r: Result<u64, ErrorKind>)
        requires
            old(self).wf(),
        ensures
            final(self).wf(),
            r is Ok <==> spec_withdraw_check(
                *old(self),
                p,
                old(self).ledger.balance_of(p),
                false,
            ) is None,
            match r {
                Ok(a) => {
                    &&& a == old(self).ledger.balance_of(p)
                    &&& withdrawal_initiated(*old(self), *final(self), p, a, now)
                },
                Err(e) => {
                    &&& *final(self) == *old(self)
                    &&& Some(e) == spec_withdraw_check(
                        *old(self),
                        p,
                        old(self).ledger.balance_of(p),
                        false,
                    )
                },
            },
    {
        let balance = self.ledger.get_balance(p);
        match self.withdraw_internal(p, balance, now, false) {
            Ok(()) => Ok(balance),
            Err(e) => Err(e),
        }
    }

    fn withdraw_internal(&mut self, p: u64, amount: u64, now: u64, enforce_max: bool) -> (r:
        Result<(), ErrorKind>)
        requires
            old(self).wf(),
        ensures
            final(self).wf(),
            r is Ok <==> spec_withdraw_check(*old(self), p, amount, enforce_max) is None,
            match r {
                Ok(()) => withdrawal_initiated(*old(self), *final(self), p, amount, now),
                Err(e) => {
                    &&& *final(self) == *old(self)
                    &&& Some(e) == spec_withdraw_check(*old(self), p, amount, enforce_max)
                },
            },
    {
        if self.pending.contains(p) {
            return Err(ErrorKind::WithdrawalInProgress);
        }
        if amount == 0 {
            return Err(ErrorKind::ZeroAmount);
        }
        if amount < MIN_WITHDRAWAL {
            return Err(ErrorKind::BelowMinimum);
        }
        if enforce_max && amount > MAX_WITHDRAWAL {
            return Err(ErrorKind::AboveMaximum);
        }
        // re-read the account in this turn and fail before anything moves
        match self.ledger.get_account(p) {
            Some(acc) => {
                if acc.is_locked {
                    return Err(ErrorKind::AccountLocked);
                }
                if acc.balance < amount {
                    return Err(ErrorKind::InsufficientBalance);
                }
            },
            None => {
                return Err(ErrorKind::InsufficientBalance);
            },
        }
        let ghost pre = *self;
        match self.ledger.debit_for_withdrawal(p, amount, now) {
            Ok(_) => {},
            Err(_) => {
                proof {
                    assert(false);
                }
                return Err(ErrorKind::InsufficientBalance);
            },
        }
        let record = PendingWithdrawal {
            withdrawal_type: WithdrawalType::User { amount },
            created_at: now,
            retries: 0,
            last_error: None,
        };
        match self.pending.insert(p, record) {
            Ok(()) => {},
            Err(_) => {
                proof {
                    assert(false);
                }
                return Err(ErrorKind::WithdrawalInProgress);
            },
        }
        self.audit.append(AuditEventType::WithdrawalInitiated, p, amount, "withdrawal", now);
        proof {
            lemma_wf_after_withdraw_init(pre, *self, p, amount);
        }
        Ok(())
    }
}

/// The first rule a withdrawal of `amount` by `p` breaks, if any, in the
/// order the checks run.
pub open spec fn spec_withdraw_check(s: Casino, p: u64, amount: u64, enforce_max: bool) -> Option<
    ErrorKind,
> {
    if s.pending.has_pending(p) {
        Some(ErrorKind::WithdrawalInProgress)
    } else if amount == 0 {
        Some(ErrorKind::ZeroAmount)
    } else if amount < MIN_WITHDRAWAL {
        Some(ErrorKind::BelowMinimum)
    } else if enforce_max && amount > MAX_WITHDRAWAL {
        Some(ErrorKind::AboveMaximum)
    } else if s.ledger.has_account(p) && s.ledger.account_of(p).is_locked {
        Some(ErrorKind::AccountLocked)
    } else if s.ledger.balance_of(p) < amount {
        Some(ErrorKind::InsufficientBalance)
    } else {
        None
    }
}

/// The deposit transition: `p` is credited `amount` minus the transfer
/// fee; nothing else moves; the obligations grow by exactly what came in.
pub open spec fn deposit_applied(pre: Casino, post: Casino, p: u64, amount: u64, now: u64) -> bool {
    let credited = amount - TRANSFER_FEE;
    &&& post.ledger.has_account(p)
    &&& post.ledger.balance_of(p) == pre.ledger.balance_of(p) + credited
    &&& post.ledger.account_of(p).is_locked == (pre.ledger.has_account(p)
        && pre.ledger.account_of(p).is_locked)
    &&& post.ledger.account_of(p).total_deposited == (if pre.ledger.has_account(p) {
        pre.ledger.account_of(p).total_deposited + credited
    } else {
        credited as int
    })
    &&& post.ledger.account_of(p).total_withdrawn == (if pre.ledger.has_account(p) {
        pre.ledger.account_of(p).total_withdrawn
    } else {
        0u64
    })
    &&& post.ledger.account_of(p).total_wagered == (if pre.ledger.has_account(p) {
        pre.ledger.account_of(p).total_wagered
    } else {
        0u64
    })
    &&& others_unchanged(pre.ledger, post.ledger, p)
    &&& forall|q: u64| pre.ledger.has_account(q) ==> post.ledger.has_account(q)
    &&& post.ledger.total() == pre.ledger.total() + credited
    &&& post.pool == pre.pool
    &&& post.pending == pre.pending
    &&& post.guard == pre.guard
    &&& post.audit == pre.audit
    &&& post.pending_fees_to_parent == pre.pending_fees_to_parent
    &&& post.cached_balance == pre.cached_balance
    &&& post.last_balance_refresh == pre.last_balance_refresh
    &&& post.processing == pre.processing
    &&& post.obligations() == pre.obligations() + credited
}

/// The withdrawal-initiation transition: the balance drops by `amount`,
/// a pending record keyed by `now` appears, and the obligations do not
/// move: the debt merely changes shape.
pub open spec fn withdrawal_initiated(
    pre: Casino,
    post: Casino,
    p: u64,
    amount: u64,
    now: u64,
) -> bool {
    &&& pre.ledger.has_account(p)
    &&& post.ledger.has_account(p)
    &&& post.ledger.balance_of(p) == pre.ledger.balance_of(p) - amount
    &&& post.ledger.account_of(p) == (UserAccount {
        balance: (pre.ledger.balance_of(p) - amount) as u64,
        last_activity: now,
        ..pre.ledger.account_of(p)
    })
    &&& others_unchanged(pre.ledger, post.ledger, p)
    &&& forall|q: u64| pre.ledger.has_account(q) ==> post.ledger.has_account(q)
    &&& post.ledger.total() == pre.ledger.total() - amount
    &&& post.pending.has_pending(p)
    &&& post.pending.pending_of(p) == (PendingWithdrawal {
        withdrawal_type: WithdrawalType::User { amount },
        created_at: now,
        retries: 0,
        last_error: None,
    })
    &&& !pre.pending.has_pending(p)
    &&& forall|q: u64| q != p ==> post.pending.has_pending(q) == pre.pending.has_pending(q)
    &&& forall|q: u64|
        q != p && pre.pending.has_pending(q) ==> post.pending.pending_of(q)
            == pre.pending.pending_of(q)
    &&& post.pool == pre.pool
    &&& post.guard == pre.guard
    &&& post.audit.entries@.len() == pre.audit.entries@.len() + 1
    &&& post.audit.entries@.last().event_type == AuditEventType::WithdrawalInitiated
    &&& post.audit.entries@.last().user == p
    &&& post.audit.entries@.last().amount == amount
    &&& forall|i: int|
        0 <= i < pre.audit.entries@.len() ==> post.audit.entries@[i] == pre.audit.entries@[i]
    &&& post.pending_fees_to_parent == pre.pending_fees_to_parent
    &&& post.cached_balance == pre.cached_balance
    &&& post.last_balance_refresh == pre.last_balance_refresh
    &&& post.processing == pre.processing
    &&& post.obligations() == pre.obligations()
}

/// After an operation that only touched the ledger and the statistics
/// counters, the whole-state invariant still holds.
proof fn lemma_wf_after_ledger_only(pre: Casino, post: Casino)
    requires
        pre.wf(),
        post.ledger.wf(),
        post.pool.wf(),
        post.pending == pre.pending,
        post.guard.wf(),
        post.pending_fees_to_parent == pre.pending_fees_to_parent,
        post.obligations() <= u64::MAX,
        forall|q: u64| pre.ledger.has_account(q) ==> post.ledger.has_account(q),
        post.pool.total == pre.pool.total,
        post.pool.initialized == pre.pool.initialized,
        post.pool.shares_of(SENTINEL_HOLDER) == pre.pool.shares_of(SENTINEL_HOLDER),
        pre.pool.initialized || post.pool.reserve == pre.pool.reserve,
        forall|q: u64|
            #[trigger] post.guard.holds(q) ==> pre.guard.holds(q) || pre.pool.initialized,
    ensures
        post.wf(),
{
    assert forall|q: u64|
        #[trigger] post.pending.has_pending(q) && post.pending.pending_of(
            q,
        ).withdrawal_type is User implies post.ledger.has_account(q) by {
        assert(pre.pending.has_pending(q));
    }
    assert forall|q: u64| #[trigger] post.guard.holds(q) implies post.pool.initialized by {
        if pre.guard.holds(q) {
            assert(pre.pool.initialized);
        }
    }
    assert forall|q: u64|
        #[trigger] post.pending.has_pending(q) && post.pending.pending_of(
            q,
        ).withdrawal_type is LP implies post.pool.initialized by {
        assert(pre.pending.has_pending(q));
    }
}

proof fn lemma_wf_after_withdraw_init(pre: Casino, post: Casino, p: u64, amount: u64)
    requires
        pre.wf(),
        post.ledger.wf(),
        post.pending.wf(),
        post.pool == pre.pool,
        post.guard == pre.guard,
        post.pending_fees_to_parent == pre.pending_fees_to_parent,
        post.obligations() == pre.obligations(),
        post.ledger.has_account(p),
        post.pending.has_pending(p) && post.pending.pending_of(p).withdrawal_type is User,
        forall|q: u64| pre.ledger.has_account(q) ==> post.ledger.has_account(q),
        forall|q: u64| q != p ==> post.pending.has_pending(q) == pre.pending.has_pending(q),
        forall|q: u64|
            q != p && pre.pending.has_pending(q) ==> post.pending.pending_of(q)
                == pre.pending.pending_of(q),
    ensures
        post.wf(),
{
    assert forall|q: u64|
        #[trigger] post.pending.has_pending(q) && post.pending.pending_of(
            q,
        ).withdrawal_type is User implies post.ledger.has_account(q) by {
        if q != p {
            assert(pre.pending.has_pending(q));
            assert(pre.pending.pending_of(q) == post.pending.pending_of(q));
        }
    }
    assert forall|q: u64|
        #[trigger] post.pending.has_pending(q) && post.pending.pending_of(
            q,
        ).withdrawal_type is LP implies post.pool.initialized by {
        assert(q != p);
        assert(pre.pending.has_pending(q));
        assert(pre.pending.pending_of(q) == post.pending.pending_of(q));
    }
}

impl Casino {
    /// Give up on an unresolved withdrawal at the caller's request: the
    /// record is removed and everything it debited comes back, exactly
    /// as a definite failure would have been rolled back.
    pub fn abandon_withdrawal(&mut self, p: u64, now: u64) -> (r: Result<u64, ErrorKind>)
        requires
            old(self).wf(),
        ensures
            final(self).wf(),
            r is Ok <==> old(self).pending.has_pending(p) && spec_rollback_fits(*old(self), p),
            match r {
                Ok(a) => {
                    &&& a == old(self).pending.pending_of(p).withdrawal_type.spec_amount()
                    &&& transfer_rolled_back(*old(self), *final(self), p, now, false)
                },
                Err(e) => {
                    &&& *final(self) == *old(self)
                    &&& (e == ErrorKind::NoPendingWithdrawal <==> !old(self).pending.has_pending(
                        p,
                    ))
                    &&& (e == ErrorKind::NoPendingWithdrawal || e == ErrorKind::Overflow)
                },
            },
    {
        let amount = match self.pending.get(p) {
            Some(w) => {
                match &w.withdrawal_type {
                    WithdrawalType::User { amount } => *amount,
                    WithdrawalType::LP { amount, .. } => *amount,
                }
            },
            None => {
                return Err(ErrorKind::NoPendingWithdrawal);
            },
        };
        match self.rollback_pending(p, now, false) {
            Ok(()) => Ok(amount),
            Err(e) => Err(e),
        }
    }

    /// A borrowed view of the caller's pending withdrawal, if any.
    pub fn check_pending(&self, p: u64) -> (r: Option<&PendingWithdrawal>)
        requires
            self.wf(),
        ensures
            match r {
                Some(w) => self.pending.has_pending(p) && *w == self.pending.pending_of(p),
                None => !self.pending.has_pending(p),
            },
    {
        self.pending.get(p)
    }

    /// The caller-visible status of their withdrawal.
    pub fn get_withdrawal_status(&self, p: u64) -> (r: WithdrawalStatusResponse)
        requires
            self.wf(),
        ensures
            match r {
                WithdrawalStatusResponse::Absent => !self.pending.has_pending(p),
                WithdrawalStatusResponse::Pending { amount, retries, last_error } => {
                    &&& self.pending.has_pending(p)
                    &&& amount == self.pending.pending_of(p).withdrawal_type.spec_amount()
                    &&& retries == self.pending.pending_of(p).retries
                    &&& (last_error is Some <==> self.pending.pending_of(p).last_error is Some)
                },
            },
    {
        match self.pending.get(p) {
            Some(w) => {
                let amount = match &w.withdrawal_type {
                    WithdrawalType::User { amount } => *amount,
                    WithdrawalType::LP { amount, .. } => *amount,
                };
                let last_error = match &w.last_error {
                    Some(e) => Some(e.clone()),
                    None => None,
                };
                WithdrawalStatusResponse::Pending { amount, retries: w.retries, last_error }
            },
            None => WithdrawalStatusResponse::Absent,
        }
    }

    /// Resolve the caller's pending withdrawal with what the external
    /// ledger answered. An acceptance completes it, and so does the
    /// ledger's duplicate rejection of the reused deduplication key: a
    /// duplicate means an earlier attempt already paid, so the balance
    /// stays debited and a rollback would pay the amount a second time.
    /// A definite failure rolls everything back; an uncertain failure
    /// keeps the record, under the same key, for the background retry.
    pub fn apply_transfer_result(&mut self, p: u64, outcome: TransferOutcome, now: u64) -> (r:
        Result<u64, ErrorKind>)
        requires
            old(self).wf(),
        ensures
            final(self).wf(),
            !old(self).pending.has_pending(p) <==> r == Result::<u64, ErrorKind>::Err(
                ErrorKind::NoPendingWithdrawal,
            ),
            r is Ok <==> old(self).pending.has_pending(p) && spec_outcome_completes(outcome)
                && spec_completion_fits(*old(self), p),
            match r {
                Ok(a) => {
                    &&& spec_outcome_completes(outcome)
                    &&& a == old(self).pending.pending_of(p).withdrawal_type.spec_amount()
                    &&& transfer_completed(*old(self), *final(self), p, now)
                },
                Err(e) => {
                    &&& (e == ErrorKind::TransferFailed ==> spec_outcome_class(outcome)
                        == Some(FailureClass::Definite) && transfer_rolled_back(
                        *old(self),
                        *final(self),
                        p,
                        now,
                        false,
                    ))
                    &&& (e == ErrorKind::TransferPending ==> spec_outcome_class(outcome)
                        == Some(FailureClass::Uncertain) && transfer_still_pending(
                        *old(self),
                        *final(self),
                        p,
                    ))
                    &&& (e == ErrorKind::NoPendingWithdrawal || e == ErrorKind::Overflow
                        ==> *final(self) == *old(self))
                    &&& (e == ErrorKind::TransferFailed || e == ErrorKind::TransferPending
                        || e == ErrorKind::NoPendingWithdrawal || e == ErrorKind::Overflow)
                    &&& (old(self).pending.has_pending(p) && spec_outcome_completes(outcome)
                        ==> e == ErrorKind::Overflow && !spec_completion_fits(*old(self), p))
                    &&& (old(self).pending.has_pending(p) && spec_outcome_class(outcome) == Some(
                        FailureClass::Uncertain,
                    ) ==> e == ErrorKind::TransferPending)
                    &&& (old(self).pending.has_pending(p) && spec_outcome_class(outcome) == Some(
                        FailureClass::Definite,
                    ) ==> (if spec_rollback_fits(*old(self), p) {
                        e == ErrorKind::TransferFailed
                    } else {
                        e == ErrorKind::Overflow
                    }))
                },
            },
    {
        if !self.pending.contains(p) {
            return Err(ErrorKind::NoPendingWithdrawal);
        }
        match outcome {
            TransferOutcome::Accepted { block_index: _ } => self.complete_pending(p, now),
            TransferOutcome::Rejected { error, detail } => {
                match classify_ledger_error(error) {
                    FailureClass::Definite => {
                        match self.rollback_pending(p, now, false) {
                            Ok(()) => Err(ErrorKind::TransferFailed),
                            Err(e) => Err(e),
                        }
                    },
                    FailureClass::Uncertain => {
                        self.keep_pending(p, detail.as_str());
                        Err(ErrorKind::TransferPending)
                    },
                    FailureClass::AlreadyCompleted => self.complete_pending(p, now),
                }
            },
            TransferOutcome::CallFailed { code, detail } => {
                match classify_rejection(code) {
                    FailureClass::Definite => {
                        match self.rollback_pending(p, now, false) {
                            Ok(()) => Err(ErrorKind::TransferFailed),
                            Err(e) => Err(e),
                        }
                    },
                    FailureClass::Uncertain => {
                        self.keep_pending(p, detail.as_str());
                        Err(ErrorKind::TransferPending)
                    },
                    FailureClass::AlreadyCompleted => {
                        proof {
                            assert(false);
                        }
                        Err(ErrorKind::NoPendingWithdrawal)
                    },
                }
            },
        }
    }

    /// One step of the background sweep for the caller's pending record:
    /// either the retry budget is spent, in which case everything is
    /// restored, or the transfer should be attempted again with the
    /// original `created_at` key.
    pub fn begin_retry(&mut self, p: u64, now: u64) -> (r: Result<RetryDecision, ErrorKind>)
        requires
            old(self).wf(),
        ensures
            final(self).wf(),
            old(self).pending.has_pending(p) && (old(self).pending.pending_of(p).retries
                < MAX_RETRIES || spec_rollback_fits(*old(self), p)) ==> r is Ok,
            match r {
                Ok(d) => {
                    &&& old(self).pending.has_pending(p)
                    &&& match d {
                        RetryDecision::Attempt { amount, created_at } => {
                            &&& old(self).pending.pending_of(p).retries < MAX_RETRIES
                            &&& amount == old(self).pending.pending_of(
                                p,
                            ).withdrawal_type.spec_amount()
                            &&& created_at == old(self).pending.pending_of(p).created_at
                            &&& *final(self) == *old(self)
                        },
                        RetryDecision::Expired { amount } => {
                            &&& old(self).pending.pending_of(p).retries >= MAX_RETRIES
                            &&& amount == old(self).pending.pending_of(
                                p,
                            ).withdrawal_type.spec_amount()
                            &&& transfer_rolled_back(*old(self), *final(self), p, now, true)
                        },
                    }
                },
                Err(e) => {
                    &&& *final(self) == *old(self)
                    &&& (e == ErrorKind::NoPendingWithdrawal <==> !old(self).pending.has_pending(
                        p,
                    ))
                    &&& (e == ErrorKind::Overflow ==> old(self).pending.pending_of(p).retries
                        >= MAX_RETRIES && !spec_rollback_fits(*old(self), p))
                    &&& (e == ErrorKind::NoPendingWithdrawal || e == ErrorKind::Overflow)
                },
            },
    {
        let (retries, created_at, amount) = match self.pending.get(p) {
            Some(w) => {
                let amount = match &w.withdrawal_type {
                    WithdrawalType::User { amount } => *amount,
                    WithdrawalType::LP { amount, .. } => *amount,
                };
                (w.retries, w.created_at, amount)
            },
            None => {
                return Err(ErrorKind::NoPendingWithdrawal);
            },
        };
        if retries >= MAX_RETRIES {
            match self.rollback_pending(p, now, true) {
                Ok(()) => Ok(RetryDecision::Expired { amount }),
                Err(e) => Err(e),
            }
        } else {
            Ok(RetryDecision::Attempt { amount, created_at })
        }
    }

    /// Complete the caller's pending withdrawal: the record goes away,
    /// the lifetime counter grows, and for an LP withdrawal the held-back
    /// fee finally accrues to the treasury sink.
    fn complete_pending(&mut self, p: u64, now: u64) -> (r: Result<u64, ErrorKind>)
        requires
            old(self).wf(),
            old(self).pending.has_pending(p),
        ensures
            final(self).wf(),
            r is Ok <==> spec_completion_fits(*old(self), p),
            match r {
                Ok(a) => {
                    &&& a == old(self).pending.pending_of(p).withdrawal_type.spec_amount()
                    &&& transfer_completed(*old(self), *final(self), p, now)
                },
                Err(e) => {
                    &&& *final(self) == *old(self)
                    &&& e == ErrorKind::Overflow
                },
            },
    {
        let ghost pre = *self;
        let wt = match self.pending.get(p) {
            Some(w) => w.withdrawal_type,
            None => {
                proof {
                    assert(false);
                }
                return Err(ErrorKind::Overflow);
            },
        };
        // check every counter before anything moves
        let (amount, fee): (u64, u64) = match wt {
            WithdrawalType::User { amount } => {
                let acc = match self.ledger.get_account(p) {
                    Some(a) => a,
                    None => {
                        proof {
                            assert(false);
                        }
                        return Err(ErrorKind::Overflow);
                    },
                };
                if acc.total_withdrawn > u64::MAX - amount {
                    return Err(ErrorKind::Overflow);
                }
                (amount, 0)
            },
            WithdrawalType::LP { reserve, amount, .. } => {
                proof {
                    crate::pending::lemma_pending_at(
                        self.pending.entries@,
                        crate::pending::pending_index_of(self.pending.entries@, p),
                    );
                }
                assert(reserve <= u64::MAX && amount <= reserve);
                let fee = (reserve as u64) - amount;
                if self.pending_fees_to_parent > u64::MAX - fee {
                    return Err(ErrorKind::Overflow);
                }
                (amount, fee)
            },
        };
        let removed = match self.pending.remove(p) {
            Ok(w) => w,
            Err(_) => {
                proof {
                    assert(false);
                }
                return Err(ErrorKind::Overflow);
            },
        };
        match removed.withdrawal_type {
            WithdrawalType::User { amount } => {
                proof {
                    assert(removed == pre.pending.pending_of(p));
                    assert(removed.withdrawal_type == wt);
                    assert(self.ledger.has_account(p));
                    assert(self.ledger.account_of(p).total_withdrawn + amount <= u64::MAX);
                }
                match self.ledger.note_withdrawal_completed(p, amount) {
                    Ok(()) => {},
                    Err(_) => {
                        proof {
                            assert(false);
                        }
                        return Err(ErrorKind::Overflow);
                    },
                }
            },
            WithdrawalType::LP { .. } => {
                self.pending_fees_to_parent = self.pending_fees_to_parent + fee;
            },
        }
        self.audit.append(AuditEventType::WithdrawalCompleted, p, amount, "completed", now);
        self.stat_withdrawals = self.stat_withdrawals.saturating_add(amount);
        proof {
            lemma_wf_after_pending_removed(pre, *self, p);
        }
        Ok(amount)
    }

    /// Roll the caller's pending withdrawal back: the record goes away
    /// and the debited balance (or the burned shares and the deducted
    /// reserve) comes back. `expired` picks the audit event.
    fn rollback_pending(&mut self, p: u64, now: u64, expired: bool) -> (r: Result<(), ErrorKind>)
        requires
            old(self).wf(),
            old(self).pending.has_pending(p),
        ensures
            final(self).wf(),
            r is Ok <==> spec_rollback_fits(*old(self), p),
            match r {
                Ok(()) => transfer_rolled_back(*old(self), *final(self), p, now, expired),
                Err(e) => {
                    &&& *final(self) == *old(self)
                    &&& e == ErrorKind::Overflow
                },
            },
    {
        let ghost pre = *self;
        let wt = match self.pending.get(p) {
            Some(w) => w.withdrawal_type,
            None => {
                proof {
                    assert(false);
                }
                return Err(ErrorKind::Overflow);
            },
        };
        proof {
            crate::pending::lemma_pending_at(
                self.pending.entries@,
                crate::pending::pending_index_of(self.pending.entries@, p),
            );
            crate::ledger::lemma_balance_le_sum(self.ledger.accounts@, p);
            crate::ledger::lemma_sum_nonneg(self.ledger.accounts@);
            crate::pending::lemma_obligation_at_le_sum(
                self.pending.entries@,
                crate::pending::pending_index_of(self.pending.entries@, p),
            );
            crate::pending::lemma_sum_pending_nonneg(self.pending.entries@);
        }
        match wt {
            WithdrawalType::User { amount } => {
                let removed = match self.pending.remove(p) {
                    Ok(w) => w,
                    Err(_) => {
                        proof {
                            assert(false);
                        }
                        return Err(ErrorKind::Overflow);
                    },
                };
                let _ = self.ledger.restore_balance(p, amount);
                let ev = if expired {
                    AuditEventType::WithdrawalExpired
                } else {
                    AuditEventType::WithdrawalFailed
                };
                self.audit.append(ev, p, amount, "withdrawal reversed", now);
                self.audit.append(
                    AuditEventType::BalanceRestored,
                    p,
                    amount,
                    "balance restored",
                    now,
                );
                proof {
                    lemma_wf_after_pending_removed(pre, *self, p);
                }
                Ok(())
            },
            WithdrawalType::LP { shares, reserve, amount } => {
                proof {
                    crate::pending::lemma_pending_at(
                        self.pending.entries@,
                        crate::pending::pending_index_of(self.pending.entries@, p),
                    );
                }
                assert(shares <= u64::MAX && reserve <= u64::MAX);
                // make sure the share total can take the mint back
                if self.pool.total > (u64::MAX as u128) - shares {
                    return Err(ErrorKind::Overflow);
                }
                let removed = match self.pending.remove(p) {
                    Ok(w) => w,
                    Err(_) => {
                        proof {
                            assert(false);
                        }
                        return Err(ErrorKind::Overflow);
                    },
                };
                proof {
                    assert(self.pool.reserve <= u64::MAX);
                    assert(self.pool.total + shares <= u64::MAX);
                }
                match self.pool.restore_lp_position(p, shares, reserve) {
                    Ok(()) => {},
                    Err(_) => {
                        proof {
                            assert(false);
                        }
                        return Err(ErrorKind::Overflow);
                    },
                }
                let ev = if expired {
                    AuditEventType::WithdrawalExpired
                } else {
                    AuditEventType::WithdrawalFailed
                };
                self.audit.append(ev, p, amount, "withdrawal reversed", now);
                self.audit.append(AuditEventType::LpRestored, p, amount, "position restored", now);
                proof {
                    lemma_wf_after_pending_removed(pre, *self, p);
                }
                Ok(())
            },
        }
    }

    /// Keep the caller's pending record after an uncertain failure: same
    /// transfer, same key, one more recorded attempt, the latest error.
    fn keep_pending(&mut self, p: u64, detail: &str)
        requires
            old(self).wf(),
            old(self).pending.has_pending(p),
        ensures
            final(self).wf(),
            transfer_still_pending(*old(self), *final(self), p),
    {
        let ghost pre = *self;
        let (wt, created_at, retries) = match self.pending.get(p) {
            Some(w) => (w.withdrawal_type, w.created_at, w.retries),
            None => {
                proof {
                    assert(false);
                }
                (WithdrawalType::User { amount: 0 }, 0, 0)
            },
        };
        let updated = PendingWithdrawal {
            withdrawal_type: wt,
            created_at,
            retries: retries.saturating_add(1),
            last_error: Some(crate::audit::sanitize_error(detail)),
        };
        proof {
            crate::pending::lemma_pending_at(
                self.pending.entries@,
                crate::pending::pending_index_of(self.pending.entries@, p),
            );
        }
        match self.pending.replace(p, updated) {
            Ok(()) => {},
            Err(_) => {
                proof {
                    assert(false);
                }
            },
        }
        proof {
            lemma_wf_after_pending_replaced(pre, *self, p);
        }
    }
}

/// What each withdrawal kind holds back for the treasury: nothing for a
/// user withdrawal, the difference between the deducted reserve and the
/// net amount for an LP withdrawal.
pub open spec fn spec_fee_of(w: WithdrawalType) -> int {
    match w {
        WithdrawalType::User { .. } => 0,
        WithdrawalType::LP { reserve, amount, .. } => reserve - amount,
    }
}

/// Which way a transfer outcome classifies, if it was a rejection.
pub open spec fn spec_outcome_class(outcome: TransferOutcome) -> Option<FailureClass> {
    match outcome {
        TransferOutcome::Accepted { .. } => None,
        TransferOutcome::Rejected { error, .. } => {
            if error == crate::pending::LedgerTransferError::TemporarilyUnavailable {
                Some(FailureClass::Uncertain)
            } else if error == crate::pending::LedgerTransferError::Duplicate {
                Some(FailureClass::AlreadyCompleted)
            } else {
                Some(FailureClass::Definite)
            }
        },
        TransferOutcome::CallFailed { code, .. } => {
            if code == crate::pending::RejectionCode::SysTransient || code
                == crate::pending::RejectionCode::Unknown {
                Some(FailureClass::Uncertain)
            } else {
                Some(FailureClass::Definite)
            }
        },
    }
}

/// Whether this outcome means the transfer has in fact settled on the
/// external ledger: an acceptance, or the ledger's duplicate rejection
/// of a deduplication key an earlier attempt already paid.
pub open spec fn spec_outcome_completes(outcome: TransferOutcome) -> bool {
    outcome is Accepted || spec_outcome_class(outcome) == Some(FailureClass::AlreadyCompleted)
}

/// Whether the lifetime counters a completion must grow can take it:
/// the user's withdrawn total, or the treasury sink for an LP record's
/// held-back fee.
pub open spec fn spec_completion_fits(s: Casino, p: u64) -> bool {
    match s.pending.pending_of(p).withdrawal_type {
        WithdrawalType::User { amount } => s.ledger.account_of(p).total_withdrawn + amount
            <= u64::MAX,
        WithdrawalType::LP { reserve, amount, .. } => s.pending_fees_to_parent + (reserve
            - amount) <= u64::MAX,
    }
}

/// Whether a rollback can mint an LP record's burned shares back without
/// passing the share-total bound; a user rollback always can.
pub open spec fn spec_rollback_fits(s: Casino, p: u64) -> bool {
    match s.pending.pending_of(p).withdrawal_type {
        WithdrawalType::User { .. } => true,
        WithdrawalType::LP { shares, .. } => s.pool.total + shares <= u64::MAX,
    }
}

/// The completion transition: the pending record is gone, exactly its
/// net amount left the system, and an LP withdrawal's held-back fee now
/// sits in the treasury sink.
pub open spec fn transfer_completed(pre: Casino, post: Casino, p: u64, now: u64) -> bool {
    let w = pre.pending.pending_of(p);
    let amt = w.withdrawal_type.spec_amount();
    &&& pre.pending.has_pending(p)
    &&& !post.pending.has_pending(p)
    &&& forall|q: u64| q != p ==> post.pending.has_pending(q) == pre.pending.has_pending(q)
    &&& forall|q: u64|
        q != p && pre.pending.has_pending(q) ==> post.pending.pending_of(q)
            == pre.pending.pending_of(q)
    &&& post.ledger.balance_of(p) == pre.ledger.balance_of(p)
    &&& others_unchanged(pre.ledger, post.ledger, p)
    &&& forall|q: u64| pre.ledger.has_account(q) ==> post.ledger.has_account(q)
    &&& post.ledger.total() == pre.ledger.total()
    &&& post.pending_fees_to_parent == pre.pending_fees_to_parent + spec_fee_of(w.withdrawal_type)
    &&& post.pool == pre.pool
    &&& post.guard == pre.guard
    &&& post.audit.entries@.len() == pre.audit.entries@.len() + 1
    &&& post.audit.entries@.last().event_type == AuditEventType::WithdrawalCompleted
    &&& post.audit.entries@.last().user == p
    &&& post.audit.entries@.last().amount == amt
    &&& forall|i: int|
        0 <= i < pre.audit.entries@.len() ==> post.audit.entries@[i] == pre.audit.entries@[i]
    &&& post.cached_balance == pre.cached_balance
    &&& post.last_balance_refresh == pre.last_balance_refresh
    &&& post.processing == pre.processing
    &&& post.obligations() == pre.obligations() - amt
}

/// The rollback transition: the pending record is gone and what it had
/// debited is back where it was; the obligations do not move.
pub open spec fn transfer_rolled_back(
    pre: Casino,
    post: Casino,
    p: u64,
    now: u64,
    expired: bool,
) -> bool {
    let w = pre.pending.pending_of(p);
    let amt = w.withdrawal_type.spec_amount();
    &&& pre.pending.has_pending(p)
    &&& !post.pending.has_pending(p)
    &&& forall|q: u64| q != p ==> post.pending.has_pending(q) == pre.pending.has_pending(q)
    &&& forall|q: u64|
        q != p && pre.pending.has_pending(q) ==> post.pending.pending_of(q)
            == pre.pending.pending_of(q)
    &&& (match w.withdrawal_type {
        WithdrawalType::User { amount } => {
            &&& pre.ledger.has_account(p)
            &&& post.ledger.has_account(p)
            &&& post.ledger.balance_of(p) == pre.ledger.balance_of(p) + amount
            &&& post.ledger.account_of(p) == (UserAccount {
                balance: (pre.ledger.balance_of(p) + amount) as u64,
                ..pre.ledger.account_of(p)
            })
            &&& others_unchanged(pre.ledger, post.ledger, p)
            &&& forall|q: u64| pre.ledger.has_account(q) ==> post.ledger.has_account(q)
            &&& post.ledger.total() == pre.ledger.total() + amount
            &&& post.pool == pre.pool
        },
        WithdrawalType::LP { shares, reserve, amount } => {
            &&& post.ledger == pre.ledger
            &&& post.pool.reserve == pre.pool.reserve + reserve
            &&& post.pool.shares_of(p) == pre.pool.shares_of(p) + shares
            &&& forall|q: u64| q != p ==> post.pool.shares_of(q) == pre.pool.shares_of(q)
            &&& post.pool.total == pre.pool.total + shares
            &&& post.pool.initialized == pre.pool.initialized
        },
    })
    &&& post.pending_fees_to_parent == pre.pending_fees_to_parent
    &&& post.guard == pre.guard
    &&& post.audit.entries@.len() == pre.audit.entries@.len() + 2
    &&& post.audit.entries@[post.audit.entries@.len() - 2].event_type == (if expired {
        AuditEventType::WithdrawalExpired
    } else {
        AuditEventType::WithdrawalFailed
    })
    &&& post.audit.entries@[post.audit.entries@.len() - 2].user == p
    &&& post.audit.entries@[post.audit.entries@.len() - 2].amount == amt
    &&& post.audit.entries@.last().event_type == (if w.withdrawal_type is User {
        AuditEventType::BalanceRestored
    } else {
        AuditEventType::LpRestored
    })
    &&& post.audit.entries@.last().user == p
    &&& post.audit.entries@.last().amount == amt
    &&& forall|i: int|
        0 <= i < pre.audit.entries@.len() ==> post.audit.entries@[i] == pre.audit.entries@[i]
    &&& post.cached_balance == pre.cached_balance
    &&& post.last_balance_refresh == pre.last_balance_refresh
    &&& post.processing == pre.processing
    &&& post.obligations() == pre.obligations()
}

/// The uncertain-failure transition: the record survives with the same
/// transfer and the same deduplication key; only the attempt counter and
/// the saved error move. Nothing else changes at all.
pub open spec fn transfer_still_pending(pre: Casino, post: Casino, p: u64) -> bool {
    let w = pre.pending.pending_of(p);
    &&& pre.pending.has_pending(p)
    &&& post.pending.has_pending(p)
    &&& post.pending.pending_of(p).withdrawal_type == w.withdrawal_type
    &&& post.pending.pending_of(p).created_at == w.created_at
    &&& post.pending.pending_of(p).retries == (if w.retries < 255 {
        w.retries + 1
    } else {
        255int
    })
    &&& post.pending.pending_of(p).last_error is Some
    &&& forall|q: u64| q != p ==> post.pending.has_pending(q) == pre.pending.has_pending(q)
    &&& forall|q: u64|
        q != p && pre.pending.has_pending(q) ==> post.pending.pending_of(q)
            == pre.pending.pending_of(q)
    &&& post.ledger == pre.ledger
    &&& post.pool == pre.pool
    &&& post.guard == pre.guard
    &&& post.audit == pre.audit
    &&& post.pending_fees_to_parent == pre.pending_fees_to_parent
    &&& post.cached_balance == pre.cached_balance
    &&& post.last_balance_refresh == pre.last_balance_refresh
    &&& post.processing == pre.processing
    &&& post.obligations() == pre.obligations()
}

/// After an operation that removed `p`'s pending record and restored or
/// paid out what it held, the whole-state invariant still holds.
proof fn lemma_wf_after_pending_removed(pre: Casino, post: Casino, p: u64)
    requires
        pre.wf(),
        post.ledger.wf(),
        post.pool.wf(),
        post.pending.wf(),
        post.guard == pre.guard,
        post.obligations() <= u64::MAX,
        !post.pending.has_pending(p),
        forall|q: u64| q != p ==> post.pending.has_pending(q) == pre.pending.has_pending(q),
        forall|q: u64|
            q != p && pre.pending.has_pending(q) ==> post.pending.pending_of(q)
                == pre.pending.pending_of(q),
        forall|q: u64| pre.ledger.has_account(q) ==> post.ledger.has_account(q),
        post.pool.initialized == pre.pool.initialized,
        post.pool.total >= pre.pool.total,
        pre.pool.initialized || post.pool.total == pre.pool.total,
        pre.pool.initialized || post.pool.reserve == pre.pool.reserve,
        post.pool.shares_of(SENTINEL_HOLDER) >= pre.pool.shares_of(SENTINEL_HOLDER),
    ensures
        post.wf(),
{
    assert forall|q: u64|
        #[trigger] post.pending.has_pending(q) && post.pending.pending_of(
            q,
        ).withdrawal_type is User implies post.ledger.has_account(q) by {
        assert(q != p);
        assert(pre.pending.has_pending(q));
        assert(pre.pending.pending_of(q) == post.pending.pending_of(q));
    }
    assert forall|q: u64|
        #[trigger] post.pending.has_pending(q) && post.pending.pending_of(
            q,
        ).withdrawal_type is LP implies post.pool.initialized by {
        assert(q != p);
        assert(pre.pending.has_pending(q));
        assert(pre.pending.pending_of(q) == post.pending.pending_of(q));
    }
}

proof fn lemma_wf_after_pending_replaced(pre: Casino, post: Casino, p: u64)
    requires
        pre.wf(),
        post.ledger == pre.ledger,
        post.pool == pre.pool,
        post.pending.wf(),
        post.guard == pre.guard,
        post.pending_fees_to_parent == pre.pending_fees_to_parent,
        post.pending.total_obligation() == pre.pending.total_obligation(),
        post.pending.has_pending(p),
        post.pending.pending_of(p).withdrawal_type == pre.pending.pending_of(p).withdrawal_type,
        pre.pending.has_pending(p),
        forall|q: u64| q != p ==> post.pending.has_pending(q) == pre.pending.has_pending(q),
        forall|q: u64|
            q != p && pre.pending.has_pending(q) ==> post.pending.pending_of(q)
                == pre.pending.pending_of(q),
    ensures
        post.wf(),
{
    assert forall|q: u64|
        #[trigger] post.pending.has_pending(q) && post.pending.pending_of(
            q,
        ).withdrawal_type is User implies post.ledger.has_account(q) by {
        if q != p {
            assert(pre.pending.has_pending(q));
            assert(pre.pending.pending_of(q) == post.pending.pending_of(q));
        } else {
            assert(pre.pending.pending_of(q).withdrawal_type is User);
        }
    }
}

impl Casino {
    /// Step one of a wager: validate it against the present state, then
    /// in one atomic step take the stake, lock the account, and enter the
    /// per-caller guard. Everything the settlement step may rely on is
    /// re-read from the state then; only `(caller, bet)` travel across
    /// the suspension that follows.
    pub fn begin_play(&mut self, p: u64, bet: u64, potential_payout: u64, now: u64) -> (r: Result<
        (),
        ErrorKind,
    >)
        requires
            old(self).wf(),
        ensures
            final(self).wf(),
            r is Ok <==> spec_begin_play_check(*old(self), p, bet, potential_payout) is None,
            match r {
                Ok(()) => play_begun(*old(self), *final(self), p, bet, now),
                Err(e) => {
                    &&& *final(self) == *old(self)
                    &&& Some(e) == spec_begin_play_check(*old(self), p, bet, potential_payout)
                },
            },
    {
        if self.guard.is_held(p) {
            return Err(ErrorKind::ConcurrentOperation);
        }
        if bet < MIN_BET {
            return Err(ErrorKind::BelowMinimum);
        }
        if bet > MAX_BET {
            return Err(ErrorKind::AboveMaximum);
        }
        if !self.pool.can_accept_bets() {
            return Err(ErrorKind::PoolBelowOperating);
        }
        proof {
            crate::ledger::lemma_sum_nonneg(self.ledger.accounts@);
            crate::pending::lemma_sum_pending_nonneg(self.pending.entries@);
        }
        let cap = self.pool.max_allowed_payout();
        if potential_payout > cap {
            return Err(ErrorKind::ExceedsHousePayoutCap);
        }
        match self.ledger.get_account(p) {
            Some(acc) => {
                if acc.is_locked {
                    return Err(ErrorKind::AccountLocked);
                }
                if acc.balance < bet {
                    return Err(ErrorKind::InsufficientBalance);
                }
            },
            None => {
                return Err(ErrorKind::InsufficientBalance);
            },
        }
        let ghost pre = *self;
        match self.guard.acquire(p) {
            Ok(()) => {},
            Err(e) => {
                proof {
                    assert(false);
                }
                return Err(e);
            },
        }
        match self.ledger.debit_and_lock(p, bet, now) {
            Ok(_) => {},
            Err(e) => {
                proof {
                    assert(false);
                }
                return Err(e);
            },
        }
        proof {
            lemma_wf_after_ledger_only(pre, *self);
        }
        Ok(())
    }

    /// Step two, on a successful draw: re-read the account, credit the
    /// payout, unlock, move the signed difference through the reserve,
    /// and leave the guard. A payout the reserve cannot cover is the
    /// fatal insolvency: nothing changes and the host must halt.
    pub fn settle_play(&mut self, p: u64, bet: u64, payout: u64, now: u64) -> (r: Result<
        u64,
        ErrorKind,
    >)
        requires
            old(self).wf(),
            old(self).guard.holds(p),
            old(self).ledger.has_account(p),
            old(self).ledger.account_of(p).is_locked,
        ensures
            final(self).wf(),
            r is Ok <==> {
                &&& !(payout > bet && payout - bet > old(self).pool.reserve)
                &&& old(self).ledger.account_of(p).total_wagered + bet <= u64::MAX
                &&& old(self).obligations() + bet <= u64::MAX
            },
            match r {
                Ok(b) => {
                    &&& play_settled(*old(self), *final(self), p, bet, payout, now)
                    &&& b == old(self).ledger.balance_of(p) + payout
                },
                Err(e) => {
                    &&& *final(self) == *old(self)
                    &&& (e == ErrorKind::PoolUnderflow || e == ErrorKind::Overflow)
                    &&& (e == ErrorKind::PoolUnderflow <==> payout > bet && payout - bet > old(
                        self,
                    ).pool.reserve)
                },
            },
    {
        proof {
            crate::ledger::lemma_sum_nonneg(self.ledger.accounts@);
            crate::pending::lemma_sum_pending_nonneg(self.pending.entries@);
            crate::ledger::lemma_balance_le_sum(self.ledger.accounts@, p);
        }
        if payout > bet {
            let delta = payout - bet;
            if (delta as u128) > self.pool.reserve {
                return Err(ErrorKind::PoolUnderflow);
            }
        }
        let acc = match self.ledger.get_account(p) {
            Some(a) => a,
            None => {
                proof {
                    assert(false);
                }
                return Err(ErrorKind::Overflow);
            },
        };
        if acc.total_wagered > u64::MAX - bet {
            return Err(ErrorKind::Overflow);
        }
        let head = self.obligations_now();
        if bet > u64::MAX - head {
            return Err(ErrorKind::Overflow);
        }
        let ghost pre = *self;
        if payout > bet {
            self.pool.debit_to_win(payout - bet);
        } else {
            match self.pool.credit_from_loss(bet - payout) {
                Ok(()) => {},
                Err(_) => {
                    proof {
                        assert(false);
                    }
                    return Err(ErrorKind::Overflow);
                },
            }
        }
        match self.ledger.settle_and_unlock(p, payout, bet, now) {
            Ok(_) => {},
            Err(_) => {
                proof {
                    assert(false);
                }
                return Err(ErrorKind::Overflow);
            },
        }
        self.guard.release(p);
        self.stat_volume = self.stat_volume.saturating_add(bet);
        self.stat_house_gain = self.stat_house_gain.saturating_add(bet);
        self.stat_house_paid = self.stat_house_paid.saturating_add(payout);
        proof {
            lemma_wf_after_ledger_only(pre, *self);
        }
        Ok(self.ledger.get_balance(p))
    }

    /// Step two, when the draw failed or the game call was rejected:
    /// re-read the account, give the stake back, unlock, record the
    /// restoration, and leave the guard.
    pub fn fail_play(&mut self, p: u64, bet: u64, now: u64) -> (r: Result<u64, ErrorKind>)
        requires
            old(self).wf(),
            old(self).guard.holds(p),
            old(self).ledger.has_account(p),
            old(self).ledger.account_of(p).is_locked,
        ensures
            final(self).wf(),
            r is Ok <==> old(self).obligations() + bet <= u64::MAX,
            match r {
                Ok(b) => {
                    &&& play_refunded(*old(self), *final(self), p, bet, now)
                    &&& b == old(self).ledger.balance_of(p) + bet
                },
                Err(e) => {
                    &&& *final(self) == *old(self)
                    &&& e == ErrorKind::Overflow
                },
            },
    {
        proof {
            crate::ledger::lemma_sum_nonneg(self.ledger.accounts@);
            crate::pending::lemma_sum_pending_nonneg(self.pending.entries@);
            crate::ledger::lemma_balance_le_sum(self.ledger.accounts@, p);
        }
        let head = self.obligations_now();
        if bet > u64::MAX - head {
            return Err(ErrorKind::Overflow);
        }
        let ghost pre = *self;
        let b = self.ledger.refund_and_unlock(p, bet, now);
        self.guard.release(p);
        self.audit.append(AuditEventType::BalanceRestored, p, bet, "stake returned", now);
        proof {
            lemma_wf_after_ledger_only(pre, *self);
        }
        Ok(b)
    }

    /// Book a liquidity deposit whose external pull has already settled:
    /// shares are minted for `p` against the grown reserve.
    pub fn apply_lp_deposit(&mut self, p: u64, amount: u64, now: u64) -> (r: Result<
        u128,
        ErrorKind,
    >)
        requires
            old(self).wf(),
            p != SENTINEL_HOLDER,
        ensures
            final(self).wf(),
            r is Ok <==> {
                &&& amount >= crate::constants::MIN_LIQUIDITY_DEPOSIT
                &&& old(self).obligations() + amount <= u64::MAX
                &&& (old(self).pool.total > 0 ==> old(self).pool.reserve > 0 && (amount * old(
                    self,
                ).pool.total) / (old(self).pool.reserve as int) > 0 && old(self).pool.total + (
                amount * old(self).pool.total) / (old(self).pool.reserve as int) <= u64::MAX)
            },
            match r {
                Ok(minted) => lp_deposited(*old(self), *final(self), p, amount, minted),
                Err(e) => {
                    &&& *final(self) == *old(self)
                    &&& (e == ErrorKind::BelowMinimum || e == ErrorKind::Overflow
                        || e == ErrorKind::InsufficientPoolReserve)
                    &&& (amount < crate::constants::MIN_LIQUIDITY_DEPOSIT ==> e
                        == ErrorKind::BelowMinimum)
                    &&& (e == ErrorKind::InsufficientPoolReserve ==> old(self).pool.total > 0
                        && old(self).pool.reserve == 0)
                },
            },
    {
        if amount < crate::constants::MIN_LIQUIDITY_DEPOSIT {
            return Err(ErrorKind::BelowMinimum);
        }
        proof {
            crate::ledger::lemma_sum_nonneg(self.ledger.accounts@);
            crate::pending::lemma_sum_pending_nonneg(self.pending.entries@);
        }
        let head = self.obligations_now();
        if amount > u64::MAX - head {
            return Err(ErrorKind::Overflow);
        }
        let ghost pre = *self;
        let minted = match self.pool.deposit_liquidity(p, amount) {
            Ok(m) => m,
            Err(e) => {
                return Err(e);
            },
        };
        proof {
            lemma_wf_after_pool_only(pre, *self);
        }
        Ok(minted)
    }

    /// Withdraw a provider's whole position: the shares burn, the gross
    /// amount leaves the reserve, and the net amount becomes a pending
    /// transfer under the same state machine as user withdrawals.
    pub fn withdraw_all_liquidity(&mut self, p: u64, now: u64) -> (r: Result<u64, ErrorKind>)
        requires
            old(self).wf(),
            p != SENTINEL_HOLDER,
        ensures
            final(self).wf(),
            r is Ok <==> {
                &&& !old(self).pending.has_pending(p)
                &&& old(self).pool.shares_of(p) > 0
                &&& old(self).pool.spec_lp_net(p) >= crate::constants::MIN_WITHDRAWAL
            },
            match r {
                Ok(net) => lp_withdrawal_initiated(*old(self), *final(self), p, net, now),
                Err(e) => {
                    &&& *final(self) == *old(self)
                    &&& (e == ErrorKind::WithdrawalInProgress || e == ErrorKind::InsufficientShares
                        || e == ErrorKind::BelowMinimum)
                    &&& (e == ErrorKind::WithdrawalInProgress <==> old(self).pending.has_pending(
                        p,
                    ))
                    &&& (e == ErrorKind::InsufficientShares <==> !old(self).pending.has_pending(p)
                        && old(self).pool.shares_of(p) == 0)
                    &&& (e == ErrorKind::BelowMinimum <==> !old(self).pending.has_pending(p)
                        && old(self).pool.shares_of(p) > 0 && old(self).pool.spec_lp_net(p)
                        < crate::constants::MIN_WITHDRAWAL)
                },
            },
    {
        if self.pending.contains(p) {
            return Err(ErrorKind::WithdrawalInProgress);
        }
        proof {
            crate::ledger::lemma_sum_nonneg(self.ledger.accounts@);
            crate::pending::lemma_sum_pending_nonneg(self.pending.entries@);
            crate::pool::lemma_share_some_holding_le_sum(self.pool.entries@, p);
        }
        let ghost pre = *self;
        let red = match self.pool.redeem_all(p) {
            Ok(red) => red,
            Err(e) => {
                return Err(e);
            },
        };
        let net: u64 = red.net as u64;
        let record = PendingWithdrawal {
            withdrawal_type: WithdrawalType::LP {
                shares: red.shares,
                reserve: red.gross,
                amount: net,
            },
            created_at: now,
            retries: 0,
            last_error: None,
        };
        match self.pending.insert(p, record) {
            Ok(()) => {},
            Err(_) => {
                proof {
                    assert(false);
                }
                return Err(ErrorKind::WithdrawalInProgress);
            },
        }
        self.audit.append(AuditEventType::WithdrawalInitiated, p, net, "liquidity withdrawal", now);
        proof {
            // the redeemer is not the sentinel, so the burned minimum
            // stays behind and keeps the pool initialized and non-empty
            assert(pre.pool.initialized);
            assert(self.pool.shares_of(SENTINEL_HOLDER) == pre.pool.shares_of(SENTINEL_HOLDER));
            crate::pool::lemma_share_some_holding_le_sum(self.pool.entries@, SENTINEL_HOLDER);
            assert(self.pool.total > 0);
            lemma_wf_after_lp_init(pre, *self, p);
        }
        Ok(net)
    }
}

/// The first rule a wager of `bet` by `p` breaks, if any, in the order
/// the checks run.
pub open spec fn spec_begin_play_check(s: Casino, p: u64, bet: u64, potential_payout: u64) -> Option<
    ErrorKind,
> {
    if s.guard.holds(p) {
        Some(ErrorKind::ConcurrentOperation)
    } else if bet < MIN_BET {
        Some(ErrorKind::BelowMinimum)
    } else if bet > MAX_BET {
        Some(ErrorKind::AboveMaximum)
    } else if s.pool.reserve < MIN_OPERATING_BALANCE {
        Some(ErrorKind::PoolBelowOperating)
    } else if potential_payout > s.pool.reserve / (crate::constants::MAX_PAYOUT_DIVISOR as u128) {
        Some(ErrorKind::ExceedsHousePayoutCap)
    } else if s.ledger.has_account(p) && s.ledger.account_of(p).is_locked {
        Some(ErrorKind::AccountLocked)
    } else if s.ledger.balance_of(p) < bet {
        Some(ErrorKind::InsufficientBalance)
    } else {
        None
    }
}

/// The wager-start transition: stake taken, account locked, guard held;
/// nothing else has moved, and only `(p, bet)` cross the suspension.
pub open spec fn play_begun(pre: Casino, post: Casino, p: u64, bet: u64, now: u64) -> bool {
    &&& !pre.guard.holds(p)
    &&& post.guard.holds(p)
    &&& forall|q: u64| q != p ==> post.guard.holds(q) == pre.guard.holds(q)
    &&& post.ledger.has_account(p)
    &&& post.ledger.balance_of(p) == pre.ledger.balance_of(p) - bet
    &&& post.ledger.account_of(p) == (UserAccount {
        balance: (pre.ledger.balance_of(p) - bet) as u64,
        is_locked: true,
        last_activity: now,
        ..pre.ledger.account_of(p)
    })
    &&& others_unchanged(pre.ledger, post.ledger, p)
    &&& forall|q: u64| pre.ledger.has_account(q) ==> post.ledger.has_account(q)
    &&& post.ledger.total() == pre.ledger.total() - bet
    &&& post.pool == pre.pool
    &&& post.pending == pre.pending
    &&& post.audit == pre.audit
    &&& post.pending_fees_to_parent == pre.pending_fees_to_parent
    &&& post.cached_balance == pre.cached_balance
    &&& post.last_balance_refresh == pre.last_balance_refresh
    &&& post.processing == pre.processing
    &&& post.obligations() == pre.obligations() - bet
}

/// The settlement transition: the payout reaches the user from the
/// reserve, the stake reaches the reserve from the suspension, and the
/// guard and lock are gone. `Δbalance + Δreserve == 0` over the whole
/// wager: what the user gained the pool lost, and the other way round.
pub open spec fn play_settled(
    pre: Casino,
    post: Casino,
    p: u64,
    bet: u64,
    payout: u64,
    now: u64,
) -> bool {
    &&& !post.guard.holds(p)
    &&& forall|q: u64| q != p ==> post.guard.holds(q) == pre.guard.holds(q)
    &&& post.ledger.has_account(p)
    &&& post.ledger.balance_of(p) == pre.ledger.balance_of(p) + payout
    &&& post.ledger.account_of(p) == (UserAccount {
        balance: (pre.ledger.balance_of(p) + payout) as u64,
        is_locked: false,
        total_wagered: (pre.ledger.account_of(p).total_wagered + bet) as u64,
        last_activity: now,
        ..pre.ledger.account_of(p)
    })
    &&& others_unchanged(pre.ledger, post.ledger, p)
    &&& forall|q: u64| pre.ledger.has_account(q) ==> post.ledger.has_account(q)
    &&& post.ledger.total() == pre.ledger.total() + payout
    &&& post.pool.reserve == pre.pool.reserve + bet - payout
    &&& post.pool == (crate::pool::LiquidityPool {
        reserve: (pre.pool.reserve + bet - payout) as u128,
        ..pre.pool
    })
    &&& post.pending == pre.pending
    &&& post.audit == pre.audit
    &&& post.pending_fees_to_parent == pre.pending_fees_to_parent
    &&& post.cached_balance == pre.cached_balance
    &&& post.last_balance_refresh == pre.last_balance_refresh
    &&& post.processing == pre.processing
    &&& post.obligations() == pre.obligations() + bet
}

/// The failed-draw transition: the stake comes back, the lock and guard
/// are gone, and the restoration is on the audit trail.
pub open spec fn play_refunded(pre: Casino, post: Casino, p: u64, bet: u64, now: u64) -> bool {
    &&& !post.guard.holds(p)
    &&& forall|q: u64| q != p ==> post.guard.holds(q) == pre.guard.holds(q)
    &&& post.ledger.has_account(p)
    &&& post.ledger.balance_of(p) == pre.ledger.balance_of(p) + bet
    &&& post.ledger.account_of(p) == (UserAccount {
        balance: (pre.ledger.balance_of(p) + bet) as u64,
        is_locked: false,
        last_activity: now,
        ..pre.ledger.account_of(p)
    })
    &&& others_unchanged(pre.ledger, post.ledger, p)
    &&& forall|q: u64| pre.ledger.has_account(q) ==> post.ledger.has_account(q)
    &&& post.pool == pre.pool
    &&& post.pending == pre.pending
    &&& post.audit.entries@.len() == pre.audit.entries@.len() + 1
    &&& post.audit.entries@.last().event_type == AuditEventType::BalanceRestored
    &&& post.audit.entries@.last().user == p
    &&& post.audit.entries@.last().amount == bet
    &&& forall|i: int|
        0 <= i < pre.audit.entries@.len() ==> post.audit.entries@[i] == pre.audit.entries@[i]
    &&& post.pending_fees_to_parent == pre.pending_fees_to_parent
    &&& post.cached_balance == pre.cached_balance
    &&& post.last_balance_refresh == pre.last_balance_refresh
    &&& post.processing == pre.processing
    &&& post.obligations() == pre.obligations() + bet
}

/// The liquidity-deposit transition: the reserve grows by the full
/// amount, `p` is minted the share-price-preserving number of shares
/// (the very first deposit also burns the minimum to the sentinel), and
/// the obligations grow by what came in.
pub open spec fn lp_deposited(
    pre: Casino,
    post: Casino,
    p: u64,
    amount: u64,
    minted: u128,
) -> bool {
    &&& amount >= crate::constants::MIN_LIQUIDITY_DEPOSIT
    &&& (pre.pool.total > 0 ==> pre.pool.reserve > 0)
    &&& post.pool.reserve == pre.pool.reserve + amount
    &&& post.pool.initialized
    &&& post.pool.shares_of(p) == pre.pool.shares_of(p) + minted
    &&& forall|q: u64|
        q != p && q != SENTINEL_HOLDER ==> post.pool.shares_of(q) == pre.pool.shares_of(q)
    &&& (if pre.pool.total == 0 {
        minted == amount - crate::constants::MINIMUM_LIQUIDITY && post.pool.shares_of(
            SENTINEL_HOLDER,
        ) == pre.pool.shares_of(SENTINEL_HOLDER) + crate::constants::MINIMUM_LIQUIDITY
            && post.pool.total == pre.pool.total + amount
    } else {
        minted == (amount * pre.pool.total) / (pre.pool.reserve as int) && minted > 0
            && post.pool.shares_of(SENTINEL_HOLDER) == pre.pool.shares_of(SENTINEL_HOLDER)
            && post.pool.total == pre.pool.total + minted
    })
    &&& post.ledger == pre.ledger
    &&& post.pending == pre.pending
    &&& post.guard == pre.guard
    &&& post.audit == pre.audit
    &&& post.pending_fees_to_parent == pre.pending_fees_to_parent
    &&& post.cached_balance == pre.cached_balance
    &&& post.last_balance_refresh == pre.last_balance_refresh
    &&& post.processing == pre.processing
    &&& post.obligations() == pre.obligations() + amount
}

/// The liquidity-withdrawal-start transition: the whole position burns,
/// the gross amount leaves the reserve into a pending record, and the
/// obligations do not move.
pub open spec fn lp_withdrawal_initiated(
    pre: Casino,
    post: Casino,
    p: u64,
    net: u64,
    now: u64,
) -> bool {
    let sh = pre.pool.shares_of(p);
    let gross = (sh * pre.pool.reserve) / (pre.pool.total as int);
    let fee = gross * crate::constants::LP_WITHDRAWAL_FEE_BPS / (
    crate::constants::BPS_DENOMINATOR as int);
    &&& sh > 0
    &&& net == gross - fee
    &&& net >= MIN_WITHDRAWAL
    &&& post.pool.reserve == pre.pool.reserve - gross
    &&& post.pool.shares_of(p) == 0
    &&& forall|q: u64| q != p ==> post.pool.shares_of(q) == pre.pool.shares_of(q)
    &&& post.pool.total == pre.pool.total - sh
    &&& post.pool.initialized == pre.pool.initialized
    &&& !pre.pending.has_pending(p)
    &&& post.pending.has_pending(p)
    &&& post.pending.pending_of(p) == (PendingWithdrawal {
        withdrawal_type: WithdrawalType::LP {
            shares: sh,
            reserve: gross as u128,
            amount: net,
        },
        created_at: now,
        retries: 0,
        last_error: None,
    })
    &&& forall|q: u64| q != p ==> post.pending.has_pending(q) == pre.pending.has_pending(q)
    &&& forall|q: u64|
        q != p && pre.pending.has_pending(q) ==> post.pending.pending_of(q)
            == pre.pending.pending_of(q)
    &&& post.ledger == pre.ledger
    &&& post.guard == pre.guard
    &&& post.audit.entries@.len() == pre.audit.entries@.len() + 1
    &&& post.audit.entries@.last().event_type == AuditEventType::WithdrawalInitiated
    &&& post.audit.entries@.last().user == p
    &&& post.audit.entries@.last().amount == net
    &&& forall|i: int|
        0 <= i < pre.audit.entries@.len() ==> post.audit.entries@[i] == pre.audit.entries@[i]
    &&& post.pending_fees_to_parent == pre.pending_fees_to_parent
    &&& post.cached_balance == pre.cached_balance
    &&& post.last_balance_refresh == pre.last_balance_refresh
    &&& post.processing == pre.processing
    &&& post.obligations() == pre.obligations()
}

/// After an operation that only touched the pool, the invariant holds.
proof fn lemma_wf_after_pool_only(pre: Casino, post: Casino)
    requires
        pre.wf(),
        post.pool.wf(),
        post.ledger == pre.ledger,
        post.pending == pre.pending,
        post.guard == pre.guard,
        post.pending_fees_to_parent == pre.pending_fees_to_parent,
        post.obligations() <= u64::MAX,
        post.pool.initialized,
        post.pool.total > 0,
        post.pool.shares_of(SENTINEL_HOLDER) >= crate::constants::MINIMUM_LIQUIDITY,
    ensures
        post.wf(),
{
    assert forall|q: u64|
        #[trigger] post.pending.has_pending(q) && post.pending.pending_of(
            q,
        ).withdrawal_type is User implies post.ledger.has_account(q) by {
        assert(pre.pending.has_pending(q));
    }
}

/// After a liquidity withdrawal was initiated for `p`, the invariant
/// holds: the one new pending record is not a user withdrawal.
proof fn lemma_wf_after_lp_init(pre: Casino, post: Casino, p: u64)
    requires
        pre.wf(),
        post.ledger == pre.ledger,
        post.pool.wf(),
        post.pending.wf(),
        post.guard == pre.guard,
        post.obligations() <= u64::MAX,
        post.pending.has_pending(p),
        !(post.pending.pending_of(p).withdrawal_type is User),
        forall|q: u64| q != p ==> post.pending.has_pending(q) == pre.pending.has_pending(q),
        forall|q: u64|
            q != p && pre.pending.has_pending(q) ==> post.pending.pending_of(q)
                == pre.pending.pending_of(q),
        post.pool.initialized,
        post.pool.total > 0,
        post.pool.shares_of(SENTINEL_HOLDER) >= crate::constants::MINIMUM_LIQUIDITY,
    ensures
        post.wf(),
{
    assert forall|q: u64|
        #[trigger] post.pending.has_pending(q) && post.pending.pending_of(
            q,
        ).withdrawal_type is User implies post.ledger.has_account(q) by {
        if q != p {
            assert(pre.pending.has_pending(q));
            assert(pre.pending.pending_of(q) == post.pending.pending_of(q));
        }
    }
}

impl Casino {
    /// Enter the background sweep. Returns false, changing nothing else,
    /// if a sweep is already running: timer callbacks must not overlap.
    pub fn begin_processing(&mut self) -> (r: bool)
        requires
            old(self).wf(),
        ensures
            final(self).wf(),
            r == !old(self).processing,
            *final(self) == (Casino { processing: true, ..*old(self) }),
    {
        let was_running = self.processing;
        self.processing = true;
        !was_running
    }

    /// Leave the background sweep.
    pub fn end_processing(&mut self)
        requires
            old(self).wf(),
        ensures
            final(self).wf(),
            *final(self) == (Casino { processing: false, ..*old(self) }),
    {
        self.processing = false;
    }

    /// How many pending transfers exist, for bounding one sweep batch.
    pub fn pending_count(&self) -> (r: usize)
        ensures
            r == self.pending.entries@.len(),
    {
        self.pending.len()
    }

    /// The user of the pending record at `i`.
    pub fn pending_user_at(&self, i: usize) -> (r: u64)
        requires
            self.wf(),
            i < self.pending.entries@.len(),
        ensures
            self.pending.has_pending(r),
    {
        self.pending.user_at(i)
    }

    /// Record a fresh answer of the external balance query.
    pub fn record_balance_refresh(&mut self, value: u64, now: u64)
        requires
            old(self).wf(),
        ensures
            final(self).wf(),
            *final(self) == (Casino {
                cached_balance: value,
                last_balance_refresh: now,
                ..*old(self)
            }),
    {
        self.cached_balance = value;
        self.last_balance_refresh = now;
    }

    /// Nanoseconds since the cached balance was refreshed; the largest
    /// value when it never was.
    pub fn get_balance_cache_age(&self, now: u64) -> (r: u64)
        ensures
            r == (if self.last_balance_refresh == 0 {
                u64::MAX as int
            } else if now >= self.last_balance_refresh {
                now - self.last_balance_refresh
            } else {
                0int
            }),
    {
        if self.last_balance_refresh == 0 {
            u64::MAX
        } else if now >= self.last_balance_refresh {
            now - self.last_balance_refresh
        } else {
            0
        }
    }

    /// Whether queries that lean on the cached balance must refresh first.
    pub fn is_cache_stale(&self, now: u64, max_age_nanos: u64) -> (r: bool)
        ensures
            r == (self.last_balance_refresh == 0 || now - self.last_balance_refresh
                > max_age_nanos),
    {
        crate::is_balance_cache_stale(self.last_balance_refresh, now, max_age_nanos)
    }

    /// How much of the held-back fees the next sweep may forward to the
    /// treasury: nothing below the threshold, and never more than a tenth
    /// of the cached external balance.
    pub fn fee_sweep_amount(&self) -> (r: Option<u64>)
        ensures
            match r {
                Some(a) => {
                    &&& self.pending_fees_to_parent >= RECONCILIATION_THRESHOLD
                    &&& a == vstd::math::min(
                        self.pending_fees_to_parent as int,
                        self.cached_balance as int / MAX_RECONCILIATION_DIVISOR as int,
                    )
                },
                None => self.pending_fees_to_parent < RECONCILIATION_THRESHOLD,
            },
    {
        if self.pending_fees_to_parent < RECONCILIATION_THRESHOLD {
            return None;
        }
        let cap = self.cached_balance / MAX_RECONCILIATION_DIVISOR;
        if self.pending_fees_to_parent <= cap {
            Some(self.pending_fees_to_parent)
        } else {
            Some(cap)
        }
    }

    /// Book a fee forwarding whose external transfer succeeded. Only
    /// counters the system itself incremented ever leave this way.
    pub fn apply_fee_sweep(&mut self, amount: u64) -> (r: Result<(), ErrorKind>)
        requires
            old(self).wf(),
        ensures
            final(self).wf(),
            r is Ok <==> amount <= old(self).pending_fees_to_parent,
            match r {
                Ok(()) => {
                    &&& *final(self) == (Casino {
                        pending_fees_to_parent: (old(self).pending_fees_to_parent - amount) as u64,
                        ..*old(self)
                    })
                    &&& final(self).obligations() == old(self).obligations() - amount
                },
                Err(e) => {
                    &&& *final(self) == *old(self)
                    &&& e == ErrorKind::InsufficientBalance
                },
            },
    {
        if amount > self.pending_fees_to_parent {
            return Err(ErrorKind::InsufficientBalance);
        }
        self.pending_fees_to_parent = self.pending_fees_to_parent - amount;
        Ok(())
    }

    /// Overwrite a user's balance outright (the hook game logic uses).
    /// Refused only when it would push the obligations past the range
    /// the external token can represent.
    pub fn update_balance(&mut self, p: u64, new_balance: u64, now: u64) -> (r: Result<
        (),
        ErrorKind,
    >)
        requires
            old(self).wf(),
        ensures
            final(self).wf(),
            r is Ok <==> old(self).obligations() - old(self).ledger.balance_of(p) + new_balance
                <= u64::MAX,
            match r {
                Ok(()) => {
                    &&& final(self).ledger.has_account(p)
                    &&& final(self).ledger.balance_of(p) == new_balance
                    &&& others_unchanged(old(self).ledger, final(self).ledger, p)
                    &&& final(self).pool == old(self).pool
                    &&& final(self).pending == old(self).pending
                    &&& final(self).guard == old(self).guard
                    &&& final(self).audit == old(self).audit
                    &&& final(self).pending_fees_to_parent == old(self).pending_fees_to_parent
                    &&& final(self).obligations() == old(self).obligations() - old(
                        self,
                    ).ledger.balance_of(p) + new_balance
                },
                Err(e) => {
                    &&& *final(self) == *old(self)
                    &&& e == ErrorKind::Overflow
                },
            },
    {
        proof {
            crate::ledger::lemma_sum_nonneg(self.ledger.accounts@);
            crate::pending::lemma_sum_pending_nonneg(self.pending.entries@);
            crate::ledger::lemma_balance_le_sum(self.ledger.accounts@, p);
        }
        let head = self.obligations_now();
        let current = self.ledger.get_balance(p);
        let base = head - current;
        if new_balance > u64::MAX - base {
            return Err(ErrorKind::Overflow);
        }
        let ghost pre = *self;
        match self.ledger.update_balance(p, new_balance, now) {
            Ok(()) => {},
            Err(_) => {
                proof {
                    assert(false);
                }
                return Err(ErrorKind::Overflow);
            },
        }
        proof {
            lemma_wf_after_ledger_only(pre, *self);
        }
        Ok(())
    }

    /// The custodial bookkeeping snapshot.
    pub fn get_accounting_stats(&self) -> (r: AccountingStats)
        requires
            self.wf(),
        ensures
            r.total_user_deposits == self.ledger.total(),
            r.house_balance == self.pool.reserve,
            r.canister_balance == self.cached_balance,
            r.unique_depositors == self.ledger.accounts@.len(),
    {
        proof {
            crate::ledger::lemma_sum_nonneg(self.ledger.accounts@);
            crate::pending::lemma_sum_pending_nonneg(self.pending.entries@);
        }
        AccountingStats {
            total_user_deposits: self.ledger.calculate_total_deposits(),
            house_balance: self.pool.get_pool_reserve(),
            canister_balance: self.cached_balance,
            unique_depositors: self.ledger.account_count(),
        }
    }

    /// Lifetime counters; the house profit is the clamped difference of
    /// everything the house took in and everything it paid out.
    pub fn get_casino_stats(&self) -> (r: CasinoStats)
        requires
            self.wf(),
        ensures
            r.total_users == self.ledger.accounts@.len(),
            r.total_deposits == self.stat_deposits,
            r.total_withdrawals == self.stat_withdrawals,
            r.total_volume == self.stat_volume,
            r.house_profit == spec_house_profit(self.stat_house_gain, self.stat_house_paid),
    {
        CasinoStats {
            total_users: self.ledger.account_count(),
            total_deposits: self.stat_deposits,
            total_withdrawals: self.stat_withdrawals,
            total_volume: self.stat_volume,
            house_profit: house_profit_of(self.stat_house_gain, self.stat_house_paid),
        }
    }

    /// The solvency report, with the inequality actually computed: the
    /// cached external balance must cover every obligation.
    pub fn verify_reserves(&self, now: u64) -> (r: ReservesReport)
        requires
            self.wf(),
        ensures
            r.total_user_balances == self.ledger.total(),
            r.is_solvent == (self.cached_balance >= self.obligations()),
            r.timestamp == now,
    {
        proof {
            crate::ledger::lemma_sum_nonneg(self.ledger.accounts@);
            crate::pending::lemma_sum_pending_nonneg(self.pending.entries@);
        }
        let total = self.ledger.calculate_total_deposits();
        let obligations = self.obligations_now();
        ReservesReport {
            total_user_balances: total,
            is_solvent: self.cached_balance >= obligations,
            timestamp: now,
        }
    }

    /// The reserve as a 64-bit amount.
    pub fn get_pool_reserve(&self) -> (r: u64)
        requires
            self.wf(),
        ensures
            r == self.pool.reserve,
    {
        proof {
            crate::ledger::lemma_sum_nonneg(self.ledger.accounts@);
            crate::pending::lemma_sum_pending_nonneg(self.pending.entries@);
        }
        self.pool.get_pool_reserve()
    }

    /// Whether the reserve is above the operating floor.
    pub fn can_accept_bets(&self) -> (r: bool)
        ensures
            r == (self.pool.reserve >= MIN_OPERATING_BALANCE),
    {
        self.pool.can_accept_bets()
    }

    /// The per-wager payout cap: a tenth of the reserve.
    pub fn get_max_allowed_payout(&self) -> (r: u64)
        requires
            self.wf(),
        ensures
            r == self.pool.reserve / (crate::constants::MAX_PAYOUT_DIVISOR as u128),
    {
        proof {
            crate::ledger::lemma_sum_nonneg(self.ledger.accounts@);
            crate::pending::lemma_sum_pending_nonneg(self.pending.entries@);
        }
        self.pool.max_allowed_payout()
    }

    /// The pool snapshot.
    pub fn get_pool_stats(&self) -> (r: PoolStats)
        requires
            self.wf(),
        ensures
            r.total_shares == self.pool.total,
            r.pool_reserve == self.pool.reserve,
            r.is_initialized == self.pool.initialized,
    {
        self.pool.get_pool_stats()
    }

    /// A provider's position.
    pub fn get_lp_position(&self, p: u64) -> (r: LPPosition)
        requires
            self.wf(),
        ensures
            r.shares == self.pool.shares_of(p),
    {
        proof {
            crate::ledger::lemma_sum_nonneg(self.ledger.accounts@);
            crate::pending::lemma_sum_pending_nonneg(self.pending.entries@);
        }
        self.pool.get_lp_position(p)
    }
}

/// The house profit as the clamped difference `gain - paid`.
pub open spec fn spec_house_profit(gain: u64, paid: u64) -> int {
    if gain >= paid {
        if gain - paid > i64::MAX {
            i64::MAX as int
        } else {
            gain - paid
        }
    } else {
        if paid - gain > -(i64::MIN as int) {
            i64::MIN as int
        } else {
            -(paid - gain)
        }
    }
}

/// Clamp `gain - paid` into the signed range.
fn house_profit_of(gain: u64, paid: u64) -> (r: i64)
    ensures
        r == spec_house_profit(gain, paid),
{
    if gain >= paid {
        let d = gain - paid;
        if d > i64::MAX as u64 {
            i64::MAX
        } else {
            d as i64
        }
    } else {
        let d = paid - gain;
        if d >= 9_223_372_036_854_775_808u64 {
            i64::MIN
        } else {
            -(d as i64)
        }
    }
}

} // verus!
