use vstd::prelude::*;

use crate::constants::{
    BPS_DENOMINATOR, LP_WITHDRAWAL_FEE_BPS, MINIMUM_LIQUIDITY, MIN_LIQUIDITY_DEPOSIT,
    MIN_OPERATING_BALANCE, MIN_WITHDRAWAL, MAX_PAYOUT_DIVISOR, SENTINEL_HOLDER,
};
use crate::errors::ErrorKind;

verus! {

/// One liquidity provider's share holding.
#[derive(Clone, Copy, Debug, PartialEq, Eq, Structural)]
pub struct ShareEntry {
    pub owner: u64,
    pub shares: u128,
}

pub open spec fn has_shares_in(s: Seq<ShareEntry>, p: u64) -> bool {
    exists|i: int| 0 <= i < s.len() && s[i].owner == p
}

pub open spec fn share_index_of(s: Seq<ShareEntry>, p: u64) -> int {
    choose|i: int| 0 <= i < s.len() && s[i].owner == p
}

/// Holder `p`'s share balance; zero for a holder with no entry.
pub open spec fn shares_in(s: Seq<ShareEntry>, p: u64) -> u128 {
    if has_shares_in(s, p) {
        s[share_index_of(s, p)].shares
    } else {
        0u128
    }
}

/// The sum of all share holdings, burned sentinel shares included.
pub open spec fn sum_shares(s: Seq<ShareEntry>) -> int
    decreases s.len(),
{
    if s.len() == 0 {
        0
    } else {
        sum_shares(s.drop_last()) + s.last().shares
    }
}

pub open spec fn unique_owners(s: Seq<ShareEntry>) -> bool {
    forall|i: int, j: int| 0 <= i < j < s.len() ==> s[i].owner != s[j].owner
}

/// How many entries hold a positive share balance for a real provider
/// (the sentinel's burned holding is not a provider).
pub open spec fn count_providers(s: Seq<ShareEntry>) -> int
    decreases s.len(),
{
    if s.len() == 0 {
        0
    } else {
        count_providers(s.drop_last()) + (if s.last().owner != SENTINEL_HOLDER && s.last().shares
            > 0 {
            1int
        } else {
            0int
        })
    }
}

pub proof fn lemma_sum_shares_nonneg(s: Seq<ShareEntry>)
    ensures
        sum_shares(s) >= 0,
    decreases s.len(),
{
    if s.len() > 0 {
        lemma_sum_shares_nonneg(s.drop_last());
    }
}

pub proof fn lemma_sum_shares_update(s: Seq<ShareEntry>, i: int, a: ShareEntry)
    requires
        0 <= i < s.len(),
    ensures
        sum_shares(s.update(i, a)) == sum_shares(s) - s[i].shares + a.shares,
    decreases s.len(),
{
    let s2 = s.update(i, a);
    if i == s.len() - 1 {
        assert(s2.drop_last() =~= s.drop_last());
        assert(s2.last() == a);
    } else {
        assert(s2.drop_last() =~= s.drop_last().update(i, a));
        assert(s2.last() == s.last());
        lemma_sum_shares_update(s.drop_last(), i, a);
    }
}

pub proof fn lemma_sum_shares_push(s: Seq<ShareEntry>, a: ShareEntry)
    ensures
        sum_shares(s.push(a)) == sum_shares(s) + a.shares,
{
    assert(s.push(a).drop_last() =~= s);
    assert(s.push(a).last() == a);
}

pub proof fn lemma_share_at(s: Seq<ShareEntry>, i: int)
    requires
        unique_owners(s),
        0 <= i < s.len(),
    ensures
        has_shares_in(s, s[i].owner),
        share_index_of(s, s[i].owner) == i,
        shares_in(s, s[i].owner) == s[i].shares,
{
    let p = s[i].owner;
    assert(has_shares_in(s, p));
    let j = share_index_of(s, p);
    assert(0 <= j < s.len() && s[j].owner == p);
    if j != i {
        assert(false);
    }
}

pub proof fn lemma_share_update_same_key(s: Seq<ShareEntry>, i: int, a: ShareEntry)
    requires
        unique_owners(s),
        0 <= i < s.len(),
        a.owner == s[i].owner,
    ensures
        unique_owners(s.update(i, a)),
        forall|q: u64| q != a.owner ==> shares_in(s.update(i, a), q) == shares_in(s, q),
        shares_in(s.update(i, a), a.owner) == a.shares,
        sum_shares(s.update(i, a)) == sum_shares(s) - s[i].shares + a.shares,
{
    let s2 = s.update(i, a);
    assert forall|k: int| 0 <= k < s.len() implies s2[k].owner == s[k].owner by {}
    assert(unique_owners(s2));
    assert forall|q: u64| q != a.owner implies shares_in(s2, q) == shares_in(s, q) by {
        if has_shares_in(s, q) {
            let j = share_index_of(s, q);
            assert(s2[j].owner == q);
            assert(has_shares_in(s2, q));
            let j2 = share_index_of(s2, q);
            assert(j2 != i);
            assert(s[j2].owner == q);
            if j2 != j {
                assert(false);
            }
        } else {
            if has_shares_in(s2, q) {
                let j2 = share_index_of(s2, q);
                assert(s[j2].owner == q);
                assert(false);
            }
        }
    }
    let j2 = share_index_of(s2, a.owner);
    assert(has_shares_in(s2, a.owner));
    assert(0 <= j2 < s2.len() && s2[j2].owner == a.owner);
    if j2 != i {
        assert(s[j2].owner == a.owner);
        assert(false);
    }
    lemma_sum_shares_update(s, i, a);
}

pub proof fn lemma_share_push_new_key(s: Seq<ShareEntry>, a: ShareEntry)
    requires
        unique_owners(s),
        !has_shares_in(s, a.owner),
    ensures
        unique_owners(s.push(a)),
        forall|q: u64| q != a.owner ==> shares_in(s.push(a), q) == shares_in(s, q),
        shares_in(s.push(a), a.owner) == a.shares,
        sum_shares(s.push(a)) == sum_shares(s) + a.shares,
{
    let s2 = s.push(a);
    let n = s.len() as int;
    assert(s2[n] == a);
    assert forall|i: int, j: int| 0 <= i < j < s2.len() implies s2[i].owner != s2[j].owner by {
        if j < n {
            assert(s2[i] == s[i] && s2[j] == s[j]);
        } else {
            assert(s2[i] == s[i] && s2[j] == a);
            assert(has_shares_in(s, s[i].owner));
        }
    }
    assert forall|q: u64| q != a.owner implies shares_in(s2, q) == shares_in(s, q) by {
        if has_shares_in(s, q) {
            let j = share_index_of(s, q);
            assert(s2[j].owner == q);
            assert(has_shares_in(s2, q));
            let j2 = share_index_of(s2, q);
            assert(j2 != n);
            assert(s[j2].owner == q);
            if j2 != j {
                assert(false);
            }
        } else {
            if has_shares_in(s2, q) {
                let j2 = share_index_of(s2, q);
                assert(j2 != n);
                assert(s[j2].owner == q);
                assert(false);
            }
        }
    }
    let j2 = share_index_of(s2, a.owner);
    assert(has_shares_in(s2, a.owner));
    if j2 != n {
        assert(s[j2].owner == a.owner);
        assert(has_shares_in(s, a.owner));
        assert(false);
    }
    lemma_sum_shares_push(s, a);
}

/// A provider's position, all in integers: ownership in basis points,
/// the redeemable amount in e8s.
#[derive(Clone, Copy, Debug, PartialEq, Eq, Structural)]
pub struct LPPosition {
    pub shares: u128,
    pub pool_ownership_bps: u64,
    pub redeemable: u64,
}

/// A snapshot of the pool, for queries.
#[derive(Clone, Copy, Debug, PartialEq, Eq, Structural)]
pub struct PoolStats {
    pub total_shares: u128,
    pub pool_reserve: u128,
    pub share_price: u128,
    pub total_liquidity_providers: u64,
    pub minimum_liquidity_burned: u64,
    pub is_initialized: bool,
}

/// The reserve that backs every wager, and the fungible claims on it.
///
/// The first deposit burns `MINIMUM_LIQUIDITY` shares to a sentinel holder
/// so that a lone provider cannot manipulate the share price. Share math
/// follows the constant-price rule: minting `amount * total / reserve`,
/// redeeming `shares * reserve / total`.
pub struct LiquidityPool {
    pub reserve: u128,
    pub initialized: bool,
    pub entries: Vec<ShareEntry>,
    pub total: u128,
}

impl LiquidityPool {
    /// Well-formed: one entry per holder, the cached total equals the sum
    /// of all holdings, and the total stays within `u64::MAX` so that no
    /// later product can exceed 128 bits.
    pub open spec fn wf(self) -> bool {
        &&& unique_owners(self.entries@)
        &&& self.total as int == sum_shares(self.entries@)
        &&& self.total <= u64::MAX
    }

    pub open spec fn shares_of(self, p: u64) -> u128 {
        shares_in(self.entries@, p)
    }

    pub open spec fn total_shares(self) -> u128 {
        self.total
    }

    pub fn new() -> (r: LiquidityPool)
        ensures
            r.wf(),
            r.reserve == 0,
            !r.initialized,
            r.total == 0,
            r.entries@.len() == 0,
            forall|q: u64| r.shares_of(q) == 0,
    {
        LiquidityPool { reserve: 0, initialized: false, entries: Vec::new(), total: 0 }
    }

    fn find_index(&self, p: u64) -> (r: Option<usize>)
        ensures
            match r {
                Some(i) => i < self.entries@.len() && self.entries@[i as int].owner == p,
                None => !has_shares_in(self.entries@, p),
            },
    {
        let n = self.entries.len();
        let mut i: usize = 0;
        while i < n
            invariant
                n == self.entries@.len(),
                i <= n,
                forall|j: int| 0 <= j < i ==> self.entries@[j].owner != p,
            decreases n - i,
        {
            if self.entries[i].owner == p {
                return Some(i);
            }
            i += 1;
        }
        None
    }

    /// Holder `p`'s share balance.
    pub fn get_shares(&self, p: u64) -> (r: u128)
        requires
            self.wf(),
        ensures
            r == self.shares_of(p),
    {
        match self.find_index(p) {
            Some(i) => {
                let v = self.entries[i].shares;
                proof {
                    lemma_share_at(self.entries@, i as int);
                }
                v
            },
            None => 0,
        }
    }

    /// Add `amount` shares to holder `p`, creating the entry if needed.
    /// Fails only when the share total would pass `u64::MAX`.
    fn mint(&mut self, p: u64, amount: u128) -> (r: Result<(), ErrorKind>)
        requires
            old(self).wf(),
        ensures
            final(self).wf(),
            final(self).reserve == old(self).reserve,
            final(self).initialized == old(self).initialized,
            match r {
                Ok(()) => {
                    &&& old(self).total + amount <= u64::MAX
                    &&& final(self).shares_of(p) == old(self).shares_of(p) + amount
                    &&& forall|q: u64| q != p ==> final(self).shares_of(q) == old(self).shares_of(q)
                    &&& final(self).total == old(self).total + amount
                },
                Err(e) => {
                    &&& *final(self) == *old(self)
                    &&& e == ErrorKind::Overflow
                    &&& old(self).total + amount > u64::MAX
                },
            },
    {
        let new_total = match self.total.checked_add(amount) {
            Some(t) => t,
            None => {
                return Err(ErrorKind::Overflow);
            },
        };
        if new_total > u64::MAX as u128 {
            return Err(ErrorKind::Overflow);
        }
        match self.find_index(p) {
            Some(i) => {
                proof {
                    lemma_share_at(self.entries@, i as int);
                    lemma_sum_shares_nonneg(self.entries@);
                }
                let e = self.entries[i];
                proof {
                    // the holding is part of the sum, so it cannot pass the total
                    crate::pool::lemma_share_holding_le_sum(self.entries@, i as int);
                }
                let updated = ShareEntry { shares: e.shares + amount, ..e };
                proof {
                    lemma_share_update_same_key(self.entries@, i as int, updated);
                }
                self.entries.set(i, updated);
                self.total = new_total;
                Ok(())
            },
            None => {
                let fresh = ShareEntry { owner: p, shares: amount };
                proof {
                    lemma_share_push_new_key(self.entries@, fresh);
                }
                self.entries.push(fresh);
                self.total = new_total;
                Ok(())
            },
        }
    }

    /// Remove `amount` shares from holder `p`.
    fn burn(&mut self, p: u64, amount: u128) -> (r: Result<(), ErrorKind>)
        requires
            old(self).wf(),
        ensures
            final(self).wf(),
            final(self).reserve == old(self).reserve,
            final(self).initialized == old(self).initialized,
            match r {
                Ok(()) => {
                    &&& amount <= old(self).shares_of(p)
                    &&& final(self).shares_of(p) == old(self).shares_of(p) - amount
                    &&& forall|q: u64| q != p ==> final(self).shares_of(q) == old(self).shares_of(q)
                    &&& final(self).total == old(self).total - amount
                },
                Err(e) => {
                    &&& *final(self) == *old(self)
                    &&& e == ErrorKind::InsufficientShares
                    &&& amount > old(self).shares_of(p)
                },
            },
    {
        match self.find_index(p) {
            Some(i) => {
                proof {
                    lemma_share_at(self.entries@, i as int);
                }
                let e = self.entries[i];
                if e.shares < amount {
                    return Err(ErrorKind::InsufficientShares);
                }
                let updated = ShareEntry { shares: e.shares - amount, ..e };
                proof {
                    lemma_share_update_same_key(self.entries@, i as int, updated);
                    lemma_share_holding_le_sum(self.entries@, i as int);
                }
                self.entries.set(i, updated);
                self.total = self.total - amount;
                Ok(())
            },
            None => {
                if amount == 0 {
                    // burning nothing from an absent holder changes nothing
                    proof {
                        assert(self.shares_of(p) == 0);
                    }
                    Ok(())
                } else {
                    Err(ErrorKind::InsufficientShares)
                }
            },
        }
    }

    /// The reserve, as the 64-bit amount every caller works in.
    pub fn get_pool_reserve(&self) -> (r: u64)
        requires
            self.reserve <= u64::MAX,
        ensures
            r == self.reserve,
    {
        self.reserve as u64
    }

    /// Wagers are accepted only while the reserve holds the operating floor.
    pub fn can_accept_bets(&self) -> (r: bool)
        ensures
            r == (self.reserve >= MIN_OPERATING_BALANCE),
    {
        self.reserve >= MIN_OPERATING_BALANCE as u128
    }

    /// The largest payout a single wager may win: a tenth of the reserve.
    pub fn max_allowed_payout(&self) -> (r: u64)
        requires
            self.reserve <= u64::MAX,
        ensures
            r == self.reserve / (MAX_PAYOUT_DIVISOR as u128),
    {
        (self.reserve as u64) / MAX_PAYOUT_DIVISOR
    }

    /// A losing stake flows into the reserve.
    pub fn credit_from_loss(&mut self, amount: u64) -> (r: Result<(), ErrorKind>)
        requires
            old(self).wf(),
        ensures
            final(self).wf(),
            match r {
                Ok(()) => {
                    &&& *final(self) == (LiquidityPool {
                        reserve: (old(self).reserve + amount) as u128,
                        ..*old(self)
                    })
                },
                Err(e) => {
                    &&& *final(self) == *old(self)
                    &&& e == ErrorKind::Overflow
                    &&& old(self).reserve + amount > u128::MAX
                },
            },
    {
        match self.reserve.checked_add(amount as u128) {
            Some(v) => {
                self.reserve = v;
                Ok(())
            },
            None => Err(ErrorKind::Overflow),
        }
    }

    /// A winning payout leaves the reserve. The caller must have checked
    /// that the reserve covers it; paying more than the reserve holds is
    /// the fatal insolvency the engine traps on.
    pub fn debit_to_win(&mut self, amount: u64)
        requires
            old(self).wf(),
            amount <= old(self).reserve,
        ensures
            final(self).wf(),
            *final(self) == (LiquidityPool {
                reserve: (old(self).reserve - amount) as u128,
                ..*old(self)
            }),
    {
        self.reserve = self.reserve - amount as u128;
    }

    /// Accept `amount` of liquidity and mint shares for `p`.
    ///
    /// The very first deposit mints `amount` shares and permanently burns
    /// `MINIMUM_LIQUIDITY` of them to the sentinel holder; later deposits
    /// mint `amount * total / reserve`. Deposits below the minimum, mints
    /// of zero shares, and share totals past `u64::MAX` are rejected with
    /// nothing changed.
    pub fn deposit_liquidity(&mut self, p: u64, amount: u64) -> (r: Result<u128, ErrorKind>)
        requires
            old(self).wf(),
            old(self).reserve <= u64::MAX,
            p != SENTINEL_HOLDER,
        ensures
            final(self).wf(),
            r is Ok <==> {
                &&& amount >= MIN_LIQUIDITY_DEPOSIT
                &&& (old(self).total > 0 ==> old(self).reserve > 0 && (amount * old(self).total)
                    / (old(self).reserve as int) > 0 && old(self).total + (amount * old(
                    self,
                ).total) / (old(self).reserve as int) <= u64::MAX)
            },
            match r {
                Ok(minted) => {
                    &&& amount >= MIN_LIQUIDITY_DEPOSIT
                    &&& (old(self).total > 0 ==> old(self).reserve > 0)
                    &&& final(self).reserve == old(self).reserve + amount
                    &&& final(self).initialized
                    &&& final(self).shares_of(p) == old(self).shares_of(p) + minted
                    &&& forall|q: u64|
                        q != p && q != SENTINEL_HOLDER ==> final(self).shares_of(q) == old(self).shares_of(q)
                    &&& (if old(self).total == 0 {
                        minted == amount - MINIMUM_LIQUIDITY && final(self).shares_of(SENTINEL_HOLDER) == old(self).shares_of(SENTINEL_HOLDER) + MINIMUM_LIQUIDITY && final(self).total == old(self).total + amount
                    } else {
                        minted == (amount * old(self).total) / (old(self).reserve as int) && minted > 0
                            && final(self).shares_of(SENTINEL_HOLDER) == old(self).shares_of(
                            SENTINEL_HOLDER,
                        ) && final(self).total == old(self).total + minted
                    })
                },
                Err(e) => {
                    &&& *final(self) == *old(self)
                    &&& (e == ErrorKind::BelowMinimum <==> amount < MIN_LIQUIDITY_DEPOSIT || (
                    amount >= MIN_LIQUIDITY_DEPOSIT && old(self).total > 0 && old(self).reserve
                        > 0 && (amount * old(self).total) / (old(self).reserve as int) == 0))
                    &&& (e == ErrorKind::InsufficientPoolReserve <==> amount
                        >= MIN_LIQUIDITY_DEPOSIT && old(self).total > 0 && old(self).reserve == 0)
                    &&& (e == ErrorKind::Overflow <==> amount >= MIN_LIQUIDITY_DEPOSIT && old(
                        self,
                    ).total > 0 && old(self).reserve > 0 && (amount * old(self).total) / (old(
                        self,
                    ).reserve as int) > 0 && old(self).total + (amount * old(self).total) / (old(
                        self,
                    ).reserve as int) > u64::MAX)
                },
            },
    {
        if amount < MIN_LIQUIDITY_DEPOSIT {
            return Err(ErrorKind::BelowMinimum);
        }
        if self.total == 0 {
            // first deposit: mint `amount`, burn the minimum to the sentinel
            let minted: u128 = (amount - MINIMUM_LIQUIDITY) as u128;
            let ghost pre = *self;
            match self.mint(SENTINEL_HOLDER, MINIMUM_LIQUIDITY as u128) {
                Ok(()) => {},
                Err(e) => {
                    proof {
                        assert(false);
                    }
                    return Err(e);
                },
            }
            match self.mint(p, minted) {
                Ok(()) => {},
                Err(e) => {
                    proof {
                        assert(false);
                    }
                    return Err(e);
                },
            }
            let new_reserve = match self.reserve.checked_add(amount as u128) {
                Some(v) => v,
                None => {
                    proof {
                        assert(false);
                    }
                    return Err(ErrorKind::Overflow);
                },
            };
            self.reserve = new_reserve;
            self.initialized = true;
            Ok(minted)
        } else {
            if self.reserve == 0 {
                return Err(ErrorKind::InsufficientPoolReserve);
            }
            // amount and total both fit 64 bits, so the product fits 128
            let numerator = match (amount as u128).checked_mul(self.total) {
                Some(v) => v,
                None => {
                    proof {
                        vstd::arithmetic::mul::lemma_mul_upper_bound(
                            amount as int,
                            u64::MAX as int,
                            self.total as int,
                            u64::MAX as int,
                        );
                        assert(false);
                    }
                    return Err(ErrorKind::Overflow);
                },
            };
            let minted = numerator / self.reserve;
            if minted == 0 {
                return Err(ErrorKind::BelowMinimum);
            }
            match self.mint(p, minted) {
                Ok(()) => {},
                Err(e) => {
                    return Err(e);
                },
            }
            let new_reserve = match self.reserve.checked_add(amount as u128) {
                Some(v) => v,
                None => {
                    proof {
                        assert(false);
                    }
                    return Err(ErrorKind::Overflow);
                },
            };
            self.reserve = new_reserve;
            self.initialized = true;
            Ok(minted)
        }
    }

    /// The gross amount `p`'s whole position redeems for:
    /// `shares * reserve / total`.
    pub open spec fn spec_lp_gross(self, p: u64) -> int {
        (self.shares_of(p) * self.reserve) / (self.total as int)
    }

    /// The 1 % fee split off that gross amount.
    pub open spec fn spec_lp_fee(self, p: u64) -> int {
        self.spec_lp_gross(p) * LP_WITHDRAWAL_FEE_BPS / (BPS_DENOMINATOR as int)
    }

    /// The net amount `p` is owed for its whole position.
    pub open spec fn spec_lp_net(self, p: u64) -> int {
        self.spec_lp_gross(p) - self.spec_lp_fee(p)
    }

    /// Redeem all of `p`'s shares: the gross amount `shares * reserve /
    /// total` leaves the reserve, a 1 % fee is split off, and the net
    /// remainder is what `p` is owed. Nothing changes on an error.
    pub fn redeem_all(&mut self, p: u64) -> (r: Result<LpRedemption, ErrorKind>)
        requires
            old(self).wf(),
            old(self).reserve <= u64::MAX,
        ensures
            final(self).wf(),
            r is Ok <==> old(self).shares_of(p) > 0 && old(self).spec_lp_net(p)
                >= MIN_WITHDRAWAL,
            match r {
                Ok(red) => {
                    &&& red.shares == old(self).shares_of(p)
                    &&& red.shares > 0
                    &&& red.gross == (red.shares * old(self).reserve) / (old(self).total as int)
                    &&& red.fee == red.gross * LP_WITHDRAWAL_FEE_BPS / (BPS_DENOMINATOR as int)
                    &&& red.net == red.gross - red.fee
                    &&& red.net >= MIN_WITHDRAWAL
                    &&& red.gross <= old(self).reserve
                    &&& final(self).reserve == old(self).reserve - red.gross
                    &&& final(self).shares_of(p) == 0
                    &&& forall|q: u64| q != p ==> final(self).shares_of(q) == old(self).shares_of(q)
                    &&& final(self).total == old(self).total - red.shares
                    &&& final(self).initialized == old(self).initialized
                },
                Err(e) => {
                    &&& *final(self) == *old(self)
                    &&& (e == ErrorKind::InsufficientShares || e == ErrorKind::BelowMinimum)
                    &&& (e == ErrorKind::InsufficientShares <==> old(self).shares_of(p) == 0)
                    &&& (e == ErrorKind::BelowMinimum <==> old(self).shares_of(p) > 0 && old(
                        self,
                    ).spec_lp_net(p) < MIN_WITHDRAWAL)
                },
            },
    {
        let shares = self.get_shares(p);
        if shares == 0 {
            return Err(ErrorKind::InsufficientShares);
        }
        proof {
            lemma_share_some_holding_le_sum(self.entries@, p);
        }
        // shares <= total <= u64::MAX and reserve <= u64::MAX: product fits
        let numerator = match shares.checked_mul(self.reserve) {
            Some(v) => v,
            None => {
                proof {
                    vstd::arithmetic::mul::lemma_mul_upper_bound(
                        shares as int,
                        u64::MAX as int,
                        self.reserve as int,
                        u64::MAX as int,
                    );
                    assert(false);
                }
                return Err(ErrorKind::InsufficientShares);
            },
        };
        let gross = numerator / self.total;
        proof {
            // gross == shares * reserve / total <= reserve since shares <= total
            vstd::arithmetic::mul::lemma_mul_inequality(
                shares as int,
                self.total as int,
                self.reserve as int,
            );
            vstd::arithmetic::div_mod::lemma_div_is_ordered(
                shares as int * self.reserve as int,
                self.total as int * self.reserve as int,
                self.total as int,
            );
            vstd::arithmetic::mul::lemma_mul_is_commutative(
                self.total as int,
                self.reserve as int,
            );
            vstd::arithmetic::div_mod::lemma_div_multiples_vanish(
                self.reserve as int,
                self.total as int,
            );
        }
        let fee = gross * (LP_WITHDRAWAL_FEE_BPS as u128) / (BPS_DENOMINATOR as u128);
        proof {
            vstd::arithmetic::mul::lemma_mul_inequality(
                LP_WITHDRAWAL_FEE_BPS as int,
                BPS_DENOMINATOR as int,
                gross as int,
            );
            vstd::arithmetic::mul::lemma_mul_is_commutative(
                gross as int,
                BPS_DENOMINATOR as int,
            );
            vstd::arithmetic::mul::lemma_mul_is_commutative(
                gross as int,
                LP_WITHDRAWAL_FEE_BPS as int,
            );
            vstd::arithmetic::div_mod::lemma_div_is_ordered(
                gross as int * LP_WITHDRAWAL_FEE_BPS as int,
                gross as int * BPS_DENOMINATOR as int,
                BPS_DENOMINATOR as int,
            );
            vstd::arithmetic::div_mod::lemma_div_multiples_vanish(
                gross as int,
                BPS_DENOMINATOR as int,
            );
        }
        let net = gross - fee;
        if net < MIN_WITHDRAWAL as u128 {
            return Err(ErrorKind::BelowMinimum);
        }
        if self.reserve < gross {
            // unreachable: the gross redemption never exceeds the reserve
            proof {
                assert(false);
            }
            return Err(ErrorKind::InsufficientShares);
        }
        match self.burn(p, shares) {
            Ok(()) => {},
            Err(_) => {
                proof {
                    assert(false);
                }
                return Err(ErrorKind::InsufficientShares);
            },
        }
        self.reserve = self.reserve - gross;
        Ok(LpRedemption { shares, gross, fee, net })
    }

    /// Put a provider's position back after a failed or expired
    /// withdrawal: the shares are minted again and the deducted reserve
    /// returns.
    pub fn restore_lp_position(&mut self, p: u64, shares: u128, reserve_deducted: u128) -> (r:
        Result<(), ErrorKind>)
        requires
            old(self).wf(),
        ensures
            final(self).wf(),
            match r {
                Ok(()) => {
                    &&& final(self).reserve == old(self).reserve + reserve_deducted
                    &&& final(self).shares_of(p) == old(self).shares_of(p) + shares
                    &&& forall|q: u64| q != p ==> final(self).shares_of(q) == old(self).shares_of(q)
                    &&& final(self).total == old(self).total + shares
                    &&& final(self).initialized == old(self).initialized
                },
                Err(e) => {
                    &&& *final(self) == *old(self)
                    &&& e == ErrorKind::Overflow
                    &&& (old(self).reserve + reserve_deducted > u128::MAX || old(self).total
                        + shares > u64::MAX)
                },
            },
    {
        let new_reserve = match self.reserve.checked_add(reserve_deducted) {
            Some(v) => v,
            None => {
                return Err(ErrorKind::Overflow);
            },
        };
        match self.mint(p, shares) {
            Ok(()) => {},
            Err(e) => {
                return Err(e);
            },
        }
        self.reserve = new_reserve;
        Ok(())
    }

    /// How many providers currently hold shares (the sentinel aside).
    pub fn provider_count(&self) -> (r: u64)
        ensures
            r == count_providers(self.entries@),
    {
        let n = self.entries.len();
        let mut acc: u64 = 0;
        let mut i: usize = 0;
        while i < n
            invariant
                n == self.entries@.len(),
                i <= n,
                acc == count_providers(self.entries@.take(i as int)),
                acc <= i,
            decreases n - i,
        {
            proof {
                assert(self.entries@.take(i + 1).drop_last() =~= self.entries@.take(i as int));
                assert(self.entries@.take(i + 1).last() == self.entries@[i as int]);
            }
            let e = self.entries[i];
            if e.owner != SENTINEL_HOLDER && e.shares > 0 {
                acc = acc + 1;
            }
            i += 1;
        }
        proof {
            assert(self.entries@.take(n as int) =~= self.entries@);
        }
        acc
    }

    /// A full snapshot: the share price is the reserve per share, with the
    /// documented placeholders for an empty pool.
    pub fn get_pool_stats(&self) -> (r: PoolStats)
        requires
            self.wf(),
        ensures
            r.total_shares == self.total,
            r.pool_reserve == self.reserve,
            r.is_initialized == self.initialized,
            r.total_liquidity_providers == count_providers(self.entries@),
            r.minimum_liquidity_burned == (if self.initialized {
                MINIMUM_LIQUIDITY as int
            } else {
                0int
            }),
            r.share_price == (if self.total == 0 {
                100_000_000u128
            } else if self.reserve == 0 {
                1u128
            } else {
                self.reserve / self.total
            }),
    {
        let share_price: u128 = if self.total == 0 {
            100_000_000
        } else if self.reserve == 0 {
            1
        } else {
            self.reserve / self.total
        };
        PoolStats {
            total_shares: self.total,
            pool_reserve: self.reserve,
            share_price,
            total_liquidity_providers: self.provider_count(),
            minimum_liquidity_burned: if self.initialized {
                MINIMUM_LIQUIDITY
            } else {
                0
            },
            is_initialized: self.initialized,
        }
    }

    /// A provider's position: shares, ownership in basis points, and the
    /// amount currently redeemable.
    pub fn get_lp_position(&self, p: u64) -> (r: LPPosition)
        requires
            self.wf(),
            self.reserve <= u64::MAX,
        ensures
            r.shares == self.shares_of(p),
            self.total == 0 ==> r.pool_ownership_bps == 0 && r.redeemable == 0,
            self.total > 0 ==> {
                &&& r.pool_ownership_bps == (self.shares_of(p) * BPS_DENOMINATOR) / (self.total as int)
                &&& r.redeemable == (self.shares_of(p) * self.reserve) / (self.total as int)
            },
    {
        let shares = self.get_shares(p);
        if self.total == 0 {
            return LPPosition { shares, pool_ownership_bps: 0, redeemable: 0 };
        }
        proof {
            lemma_share_some_holding_le_sum(self.entries@, p);
            vstd::arithmetic::mul::lemma_mul_upper_bound(
                shares as int,
                u64::MAX as int,
                BPS_DENOMINATOR as int,
                u64::MAX as int,
            );
            vstd::arithmetic::mul::lemma_mul_upper_bound(
                shares as int,
                u64::MAX as int,
                self.reserve as int,
                u64::MAX as int,
            );
        }
        let bps_num = shares * (BPS_DENOMINATOR as u128);
        let ownership = bps_num / self.total;
        let red_num = shares * self.reserve;
        let redeemable = red_num / self.total;
        proof {
            // ownership <= BPS_DENOMINATOR and redeemable <= reserve <= u64::MAX
            vstd::arithmetic::mul::lemma_mul_inequality(
                shares as int,
                self.total as int,
                BPS_DENOMINATOR as int,
            );
            vstd::arithmetic::div_mod::lemma_div_is_ordered(
                shares as int * BPS_DENOMINATOR as int,
                self.total as int * BPS_DENOMINATOR as int,
                self.total as int,
            );
            vstd::arithmetic::mul::lemma_mul_is_commutative(
                self.total as int,
                BPS_DENOMINATOR as int,
            );
            vstd::arithmetic::div_mod::lemma_div_multiples_vanish(
                BPS_DENOMINATOR as int,
                self.total as int,
            );
            vstd::arithmetic::mul::lemma_mul_inequality(
                shares as int,
                self.total as int,
                self.reserve as int,
            );
            vstd::arithmetic::div_mod::lemma_div_is_ordered(
                shares as int * self.reserve as int,
                self.total as int * self.reserve as int,
                self.total as int,
            );
            vstd::arithmetic::mul::lemma_mul_is_commutative(
                self.total as int,
                self.reserve as int,
            );
            vstd::arithmetic::div_mod::lemma_div_multiples_vanish(
                self.reserve as int,
                self.total as int,
            );
        }
        LPPosition { shares, pool_ownership_bps: ownership as u64, redeemable: redeemable as u64 }
    }
}

/// What one full share redemption yields.
#[derive(Clone, Copy, Debug, PartialEq, Eq, Structural)]
pub struct LpRedemption {
    pub shares: u128,
    pub gross: u128,
    pub fee: u128,
    pub net: u128,
}

/// A single holding never exceeds the sum of all holdings.
pub proof fn lemma_share_holding_le_sum(s: Seq<ShareEntry>, i: int)
    requires
        0 <= i < s.len(),
    ensures
        s[i].shares <= sum_shares(s),
    decreases s.len(),
{
    if i == s.len() - 1 {
        lemma_sum_shares_nonneg(s.drop_last());
    } else {
        assert(s.drop_last()[i] == s[i]);
        lemma_share_holding_le_sum(s.drop_last(), i);
    }
}

/// Any holder's balance never exceeds the sum of all holdings.
pub proof fn lemma_share_some_holding_le_sum(s: Seq<ShareEntry>, p: u64)
    ensures
        shares_in(s, p) <= sum_shares(s),
{
    if has_shares_in(s, p) {
        let i = share_index_of(s, p);
        assert(0 <= i < s.len() && s[i].owner == p);
        lemma_share_holding_le_sum(s, i);
    } else {
        lemma_sum_shares_nonneg(s);
    }
}

} // verus!
