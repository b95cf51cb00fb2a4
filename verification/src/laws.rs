use vstd::prelude::*;

use crate::constants::{MINIMUM_LIQUIDITY, MIN_DEPOSIT, TRANSFER_FEE};
use crate::engine::{
    deposit_applied, lp_deposited, lp_withdrawal_initiated, play_begun, play_refunded,
    play_settled, spec_begin_play_check, spec_withdraw_check, transfer_completed,
    transfer_rolled_back, transfer_still_pending, Casino,
};
use crate::errors::ErrorKind;
use crate::pending::WithdrawalType;

verus! {

/// One complete operation of the core, as it looks from outside: a wager
/// is its two turns taken together, a transfer resolution carries the
/// amounts it settled so that the flows below need no access to the
/// intermediate states.
pub enum TraceStep {
    Deposit { p: u64, amount: u64, now: u64 },
    WithdrawInit { p: u64, amount: u64, now: u64 },
    /// `amount` is what the completed transfer carried out of the system.
    TransferComplete { p: u64, amount: u64, now: u64 },
    /// `restored` is what came back to the user's balance (zero for a
    /// provider withdrawal, whose rollback refills the pool instead).
    TransferRollback { p: u64, restored: u64, now: u64, expired: bool },
    TransferRetryKept { p: u64 },
    Wager { p: u64, bet: u64, payout: u64, now1: u64, now2: u64 },
    WagerRefund { p: u64, bet: u64, now1: u64, now2: u64 },
    LpDeposit { p: u64, amount: u64, minted: u128 },
    LpWithdrawInit { p: u64, net: u64, now: u64 },
    FeeSweep { amount: u64 },
}

/// Whether one step relates `pre` to `post`: exactly the transition each
/// verified operation promises in its `ensures`.
pub open spec fn step_rel(pre: Casino, post: Casino, st: TraceStep) -> bool {
    &&& pre.wf()
    &&& post.wf()
    &&& match st {
        TraceStep::Deposit { p, amount, now } => amount >= MIN_DEPOSIT && deposit_applied(
            pre,
            post,
            p,
            amount,
            now,
        ),
        TraceStep::WithdrawInit { p, amount, now } => crate::engine::withdrawal_initiated(
            pre,
            post,
            p,
            amount,
            now,
        ),
        TraceStep::TransferComplete { p, amount, now } => amount
            == pre.pending.pending_of(p).withdrawal_type.spec_amount() && transfer_completed(
            pre,
            post,
            p,
            now,
        ),
        TraceStep::TransferRollback { p, restored, now, expired } => restored == (match pre
            .pending.pending_of(p).withdrawal_type {
            WithdrawalType::User { amount } => amount,
            WithdrawalType::LP { .. } => 0u64,
        }) && transfer_rolled_back(pre, post, p, now, expired),
        TraceStep::TransferRetryKept { p } => transfer_still_pending(pre, post, p),
        TraceStep::Wager { p, bet, payout, now1, now2 } => exists|mid: Casino|
            #[trigger] play_begun(pre, mid, p, bet, now1) && play_settled(
                mid,
                post,
                p,
                bet,
                payout,
                now2,
            ),
        TraceStep::WagerRefund { p, bet, now1, now2 } => exists|mid: Casino|
            #[trigger] play_begun(pre, mid, p, bet, now1) && play_refunded(
                mid,
                post,
                p,
                bet,
                now2,
            ),
        TraceStep::LpDeposit { p, amount, minted } => lp_deposited(pre, post, p, amount, minted),
        TraceStep::LpWithdrawInit { p, net, now } => lp_withdrawal_initiated(
            pre,
            post,
            p,
            net,
            now,
        ),
        TraceStep::FeeSweep { amount } => amount <= pre.pending_fees_to_parent && post == (Casino {
            pending_fees_to_parent: (pre.pending_fees_to_parent - amount) as u64,
            ..pre
        }),
    }
}

/// A whole run: each step's post-state is the next step's pre-state.
pub open spec fn trace_rel(s0: Casino, steps: Seq<TraceStep>, sn: Casino) -> bool
    decreases steps.len(),
{
    if steps.len() == 0 {
        sn == s0
    } else {
        exists|mid: Casino|
            #[trigger] step_rel(s0, mid, steps.first()) && trace_rel(mid, steps.drop_first(), sn)
    }
}

/// What one step moves across the boundary of the system: positive into
/// it, negative out of it. Internal moves are zero.
pub open spec fn external_flow(st: TraceStep) -> int {
    match st {
        TraceStep::Deposit { amount, .. } => amount - TRANSFER_FEE,
        TraceStep::TransferComplete { amount, .. } => -(amount as int),
        TraceStep::LpDeposit { amount, .. } => amount as int,
        TraceStep::FeeSweep { amount } => -(amount as int),
        _ => 0,
    }
}

pub open spec fn trace_flow(steps: Seq<TraceStep>) -> int
    decreases steps.len(),
{
    if steps.len() == 0 {
        0
    } else {
        external_flow(steps.first()) + trace_flow(steps.drop_first())
    }
}

/// Solvency, as conservation: over any run of complete operations, the
/// sum `Σ user.balance + pool.reserve + Σ pending + fees` moves by
/// exactly the external deposits minus the external payouts. No internal
/// operation mints or loses a single e8s.
pub proof fn lemma_funds_conservation(s0: Casino, steps: Seq<TraceStep>, sn: Casino)
    requires
        trace_rel(s0, steps, sn),
    ensures
        sn.obligations() == s0.obligations() + trace_flow(steps),
    decreases steps.len(),
{
    if steps.len() > 0 {
        let mid = choose|mid: Casino|
            #[trigger] step_rel(s0, mid, steps.first()) && trace_rel(mid, steps.drop_first(), sn);
        lemma_step_flow(s0, mid, steps.first());
        lemma_funds_conservation(mid, steps.drop_first(), sn);
    }
}

/// One step moves the obligations by exactly its external flow.
pub proof fn lemma_step_flow(pre: Casino, post: Casino, st: TraceStep)
    requires
        step_rel(pre, post, st),
    ensures
        post.obligations() == pre.obligations() + external_flow(st),
{
    match st {
        TraceStep::Wager { p, bet, payout, now1, now2 } => {
            let mid = choose|mid: Casino|
                #[trigger] play_begun(pre, mid, p, bet, now1) && play_settled(
                    mid,
                    post,
                    p,
                    bet,
                    payout,
                    now2,
                );
            assert(mid.obligations() == pre.obligations() - bet);
        },
        TraceStep::WagerRefund { p, bet, now1, now2 } => {
            let mid = choose|mid: Casino|
                #[trigger] play_begun(pre, mid, p, bet, now1) && play_refunded(
                    mid,
                    post,
                    p,
                    bet,
                    now2,
                );
            assert(mid.obligations() == pre.obligations() - bet);
        },
        _ => {},
    }
}

/// What one step does to principal `q`'s spendable balance.
pub open spec fn balance_flow(q: u64, st: TraceStep) -> int {
    match st {
        TraceStep::Deposit { p, amount, .. } => if p == q {
            amount - TRANSFER_FEE
        } else {
            0
        },
        TraceStep::WithdrawInit { p, amount, .. } => if p == q {
            -(amount as int)
        } else {
            0
        },
        TraceStep::TransferRollback { p, restored, .. } => if p == q {
            restored as int
        } else {
            0
        },
        TraceStep::Wager { p, bet, payout, .. } => if p == q {
            payout - bet
        } else {
            0
        },
        _ => 0,
    }
}

pub open spec fn balance_trace_flow(q: u64, steps: Seq<TraceStep>) -> int
    decreases steps.len(),
{
    if steps.len() == 0 {
        0
    } else {
        balance_flow(q, steps.first()) + balance_trace_flow(q, steps.drop_first())
    }
}

/// No phantom balance: over any run, every principal's balance moves by
/// exactly its own deposits, withdrawals, restorations, and wager
/// results. In particular it never exceeds what those flows account for.
pub proof fn lemma_no_phantom_balance(s0: Casino, steps: Seq<TraceStep>, sn: Casino, q: u64)
    requires
        trace_rel(s0, steps, sn),
    ensures
        sn.ledger.balance_of(q) == s0.ledger.balance_of(q) + balance_trace_flow(q, steps),
    decreases steps.len(),
{
    if steps.len() > 0 {
        let mid = choose|mid: Casino|
            #[trigger] step_rel(s0, mid, steps.first()) && trace_rel(mid, steps.drop_first(), sn);
        lemma_step_balance(s0, mid, steps.first(), q);
        lemma_no_phantom_balance(mid, steps.drop_first(), sn, q);
    }
}

/// One step moves `q`'s balance by exactly its balance flow.
pub proof fn lemma_step_balance(pre: Casino, post: Casino, st: TraceStep, q: u64)
    requires
        step_rel(pre, post, st),
    ensures
        post.ledger.balance_of(q) == pre.ledger.balance_of(q) + balance_flow(q, st),
{
    match st {
        TraceStep::Deposit { p, amount, now } => {
            if q != p {
                crate::ledger::lemma_others_balance(pre.ledger, post.ledger, p, q);
            }
        },
        TraceStep::WithdrawInit { p, amount, now } => {
            if q != p {
                crate::ledger::lemma_others_balance(pre.ledger, post.ledger, p, q);
            }
        },
        TraceStep::TransferComplete { p, amount, now } => {
            if q != p {
                crate::ledger::lemma_others_balance(pre.ledger, post.ledger, p, q);
            }
        },
        TraceStep::TransferRollback { p, restored, now, expired } => {
            if q != p {
                match pre.pending.pending_of(p).withdrawal_type {
                    WithdrawalType::User { .. } => {
                        crate::ledger::lemma_others_balance(pre.ledger, post.ledger, p, q);
                    },
                    WithdrawalType::LP { .. } => {},
                }
            }
        },
        TraceStep::Wager { p, bet, payout, now1, now2 } => {
            let mid = choose|mid: Casino|
                #[trigger] play_begun(pre, mid, p, bet, now1) && play_settled(
                    mid,
                    post,
                    p,
                    bet,
                    payout,
                    now2,
                );
            if q != p {
                crate::ledger::lemma_others_balance(pre.ledger, mid.ledger, p, q);
                crate::ledger::lemma_others_balance(mid.ledger, post.ledger, p, q);
            }
        },
        TraceStep::WagerRefund { p, bet, now1, now2 } => {
            let mid = choose|mid: Casino|
                #[trigger] play_begun(pre, mid, p, bet, now1) && play_refunded(
                    mid,
                    post,
                    p,
                    bet,
                    now2,
                );
            if q != p {
                crate::ledger::lemma_others_balance(pre.ledger, mid.ledger, p, q);
                crate::ledger::lemma_others_balance(mid.ledger, post.ledger, p, q);
            }
        },
        _ => {},
    }
}

/// Share conservation: in every well-formed state the share entries sum
/// to the recorded total, the burned sentinel holding included; and every
/// run of complete operations keeps it that way.
pub proof fn lemma_share_conservation(c: Casino)
    requires
        c.wf(),
    ensures
        crate::pool::sum_shares(c.pool.entries@) == c.pool.total,
{
}

/// Pending uniqueness: in every well-formed state no principal has two
/// unresolved transfers, and a principal with one cannot start another:
/// the initiation check answers `WithdrawalInProgress` first of all.
pub proof fn lemma_pending_uniqueness(c: Casino, p: u64, amount: u64, enforce_max: bool)
    requires
        c.wf(),
        c.pending.has_pending(p),
    ensures
        forall|i: int, j: int|
            0 <= i < j < c.pending.entries@.len() ==> c.pending.entries@[i].user
                != c.pending.entries@[j].user,
        spec_withdraw_check(c, p, amount, enforce_max) == Some(ErrorKind::WithdrawalInProgress),
{
}

/// The guard law: once a wager of `p` has begun and is suspended, any
/// further wager of `p` is refused as a concurrent operation — it can
/// never read, let alone overwrite, the state the first one relies on.
pub proof fn lemma_guard_blocks_concurrent_play(
    s0: Casino,
    s1: Casino,
    p: u64,
    bet: u64,
    now: u64,
    bet2: u64,
    potential_payout2: u64,
)
    requires
        play_begun(s0, s1, p, bet, now),
    ensures
        spec_begin_play_check(s1, p, bet2, potential_payout2) == Some(
            ErrorKind::ConcurrentOperation,
        ),
{
}

/// Retry idempotency, state side: an unresolved transfer blocks any new
/// withdrawal, and an uncertain failure keeps both the transfer and its
/// deduplication key exactly as they were. Together with the external
/// ledger's deduplication of `(sender, created_at_time)`, initiating or
/// retrying can never pay twice.
pub proof fn lemma_retry_reuses_key(s0: Casino, s1: Casino, p: u64, a2: u64, enforce_max: bool)
    requires
        transfer_still_pending(s0, s1, p),
    ensures
        s1.pending.pending_of(p).created_at == s0.pending.pending_of(p).created_at,
        s1.pending.pending_of(p).withdrawal_type == s0.pending.pending_of(p).withdrawal_type,
        spec_withdraw_check(s1, p, a2, enforce_max) == Some(ErrorKind::WithdrawalInProgress),
{
}

/// The deposit / withdraw-all round trip: depositing `n` into an empty
/// account and then withdrawing everything puts `n` minus the deposit
/// transfer fee into the outgoing transfer, leaves the balance at zero,
/// and leaves the pool and the shares exactly as they were. Completing
/// the transfer then carries that amount out (minus one more ledger fee
/// on the wire) and returns the obligations to where they started.
pub proof fn lemma_deposit_withdraw_round_trip(
    s0: Casino,
    s1: Casino,
    s2: Casino,
    s3: Casino,
    p: u64,
    n: u64,
    now1: u64,
    now2: u64,
    now3: u64,
)
    requires
        n >= MIN_DEPOSIT,
        s0.ledger.balance_of(p) == 0,
        deposit_applied(s0, s1, p, n, now1),
        crate::engine::withdrawal_initiated(s1, s2, p, (n - TRANSFER_FEE) as u64, now2),
        transfer_completed(s2, s3, p, now3),
    ensures
        s2.pending.pending_of(p).withdrawal_type.spec_amount() == n - TRANSFER_FEE,
        s2.ledger.balance_of(p) == 0,
        s2.pool == s0.pool,
        s3.pool == s0.pool,
        s3.ledger.balance_of(p) == 0,
        s3.obligations() == s0.obligations(),
        !s3.pending.has_pending(p),
{
    assert(s1.ledger.balance_of(p) == n - TRANSFER_FEE);
    assert(s2.pending.pending_of(p).withdrawal_type == (WithdrawalType::User {
        amount: (n - TRANSFER_FEE) as u64,
    }));
}

/// The wager is mass-preserving across user and pool: over the two turns
/// of one settled wager, what the user's balance gained the reserve lost
/// and the other way round; nothing enters or leaves the system.
pub proof fn lemma_settlement_mass_preserving(
    s0: Casino,
    s1: Casino,
    s2: Casino,
    p: u64,
    bet: u64,
    payout: u64,
    now1: u64,
    now2: u64,
)
    requires
        play_begun(s0, s1, p, bet, now1),
        play_settled(s1, s2, p, bet, payout, now2),
    ensures
        s2.ledger.balance_of(p) - s0.ledger.balance_of(p) == payout - bet,
        s2.pool.reserve - s0.pool.reserve == bet - payout,
        (s2.ledger.balance_of(p) - s0.ledger.balance_of(p)) + (s2.pool.reserve
            - s0.pool.reserve) == 0,
        s2.obligations() == s0.obligations(),
        forall|q: u64| q != p ==> s2.ledger.balance_of(q) == s0.ledger.balance_of(q),
{
    assert forall|q: u64| q != p implies s2.ledger.balance_of(q) == s0.ledger.balance_of(q) by {
        crate::ledger::lemma_others_balance(s0.ledger, s1.ledger, p, q);
        crate::ledger::lemma_others_balance(s1.ledger, s2.ledger, p, q);
    }
}

/// The liquidity round trip: depositing `n` and immediately withdrawing
/// the whole position never yields more than `n` — equality is lost only
/// to the 1 % fee and, on the very first deposit, the permanently burned
/// minimum liquidity.
pub proof fn lemma_lp_round_trip(
    s0: Casino,
    s1: Casino,
    s2: Casino,
    p: u64,
    n: u64,
    minted: u128,
    net: u64,
    now: u64,
)
    requires
        s0.wf(),
        s1.wf(),
        p != crate::constants::SENTINEL_HOLDER,
        s0.pool.shares_of(p) == 0,
        lp_deposited(s0, s1, p, n, minted),
        lp_withdrawal_initiated(s1, s2, p, net, now),
    ensures
        net <= n,
{
    let t0 = s0.pool.total as int;
    let r0 = s0.pool.reserve as int;
    let sh = s1.pool.shares_of(p) as int;
    let t1 = s1.pool.total as int;
    let r1 = s1.pool.reserve as int;
    let gross = (sh * r1) / t1;
    assert(sh == minted);
    if s0.pool.total == 0 {
        // first deposit: an uninitialized pool holds no reserve, so
        // minted = n - burn, total = n, reserve = n
        assert(!s0.pool.initialized);
        assert(r0 == 0);
        assert(t1 == n as int);
        assert(r1 == n as int);
        assert(sh == n - MINIMUM_LIQUIDITY);
        assert(t1 > 0);
        vstd::arithmetic::mul::lemma_mul_inequality(sh, t1, r1);
        vstd::arithmetic::div_mod::lemma_div_is_ordered(sh * r1, t1 * r1, t1);
        vstd::arithmetic::mul::lemma_mul_is_commutative(t1, r1);
        vstd::arithmetic::div_mod::lemma_div_multiples_vanish(r1, t1);
        assert(gross <= r1);
        vstd::arithmetic::div_mod::lemma_div_is_ordered(
            gross * crate::constants::LP_WITHDRAWAL_FEE_BPS as int,
            gross * crate::constants::BPS_DENOMINATOR as int,
            crate::constants::BPS_DENOMINATOR as int,
        )
    } else {
        // minted = floor(n * t0 / r0), so minted * r0 <= n * t0
        assert(r0 > 0);
        assert(sh == (n as int * t0) / r0);
        vstd::arithmetic::div_mod::lemma_fundamental_div_mod(n as int * t0, r0);
        vstd::arithmetic::div_mod::lemma_mod_bound(n as int * t0, r0);
        assert(r0 * sh <= n as int * t0);
        assert(t1 == t0 + sh);
        assert(r1 == r0 + n);
        // sh * r1 == sh * r0 + sh * n <= n * t0 + n * sh == n * t1
        vstd::arithmetic::mul::lemma_mul_is_distributive_add(sh, r0, n as int);
        vstd::arithmetic::mul::lemma_mul_is_commutative(sh, r0);
        vstd::arithmetic::mul::lemma_mul_is_commutative(sh, n as int);
        vstd::arithmetic::mul::lemma_mul_is_distributive_add(n as int, t0, sh);
        assert(sh * r1 <= n as int * t1);
        assert(t1 > 0);
        vstd::arithmetic::div_mod::lemma_div_is_ordered(sh * r1, n as int * t1, t1);
        vstd::arithmetic::mul::lemma_mul_is_commutative(n as int, t1);
        vstd::arithmetic::div_mod::lemma_div_multiples_vanish(n as int, t1);
        assert(gross <= n);
    }
    assert(net == gross - gross * crate::constants::LP_WITHDRAWAL_FEE_BPS as int / (
    crate::constants::BPS_DENOMINATOR as int));
    vstd::arithmetic::mul::lemma_mul_nonnegative(sh, r1);
    vstd::arithmetic::div_mod::lemma_div_pos_is_pos(sh * r1, t1);
    vstd::arithmetic::mul::lemma_mul_nonnegative(
        gross,
        crate::constants::LP_WITHDRAWAL_FEE_BPS as int,
    );
    vstd::arithmetic::div_mod::lemma_div_pos_is_pos(
        gross * crate::constants::LP_WITHDRAWAL_FEE_BPS as int,
        crate::constants::BPS_DENOMINATOR as int,
    );
}

} // verus!
