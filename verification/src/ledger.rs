use vstd::prelude::*;

use crate::errors::ErrorKind;

verus! {

/// One user's custodial account. Created lazily on first credit and never
/// destroyed. `balance` is spendable; the three totals are lifetime counters;
/// `is_locked` is true exactly while a wager of this user awaits its draw.
#[derive(Clone, Copy, Debug, PartialEq, Eq, Structural)]
pub struct UserAccount {
    pub principal: u64,
    pub balance: u64,
    pub total_deposited: u64,
    pub total_withdrawn: u64,
    pub total_wagered: u64,
    pub is_locked: bool,
    pub created_at: u64,
    pub last_activity: u64,
}

/// Some entry of `s` belongs to principal `p`.
pub open spec fn has_account_in(s: Seq<UserAccount>, p: u64) -> bool {
    exists|i: int| 0 <= i < s.len() && s[i].principal == p
}

/// The index of principal `p`'s entry (meaningful under `has_account_in`).
pub open spec fn index_of(s: Seq<UserAccount>, p: u64) -> int {
    choose|i: int| 0 <= i < s.len() && s[i].principal == p
}

/// Principal `p`'s entry (meaningful under `has_account_in`).
pub open spec fn account_in(s: Seq<UserAccount>, p: u64) -> UserAccount {
    s[index_of(s, p)]
}

/// Principal `p`'s spendable balance; zero for a principal with no entry.
pub open spec fn balance_in(s: Seq<UserAccount>, p: u64) -> u64 {
    if has_account_in(s, p) {
        account_in(s, p).balance
    } else {
        0u64
    }
}

/// The sum of all spendable balances.
pub open spec fn sum_balances(s: Seq<UserAccount>) -> int
    decreases s.len(),
{
    if s.len() == 0 {
        0
    } else {
        sum_balances(s.drop_last()) + s.last().balance
    }
}

/// No two entries belong to the same principal.
pub open spec fn unique_principals(s: Seq<UserAccount>) -> bool {
    forall|i: int, j: int| 0 <= i < j < s.len() ==> s[i].principal != s[j].principal
}

pub proof fn lemma_sum_nonneg(s: Seq<UserAccount>)
    ensures
        sum_balances(s) >= 0,
    decreases s.len(),
{
    if s.len() > 0 {
        lemma_sum_nonneg(s.drop_last());
    }
}

pub proof fn lemma_sum_update(s: Seq<UserAccount>, i: int, a: UserAccount)
    requires
        0 <= i < s.len(),
    ensures
        sum_balances(s.update(i, a)) == sum_balances(s) - s[i].balance + a.balance,
    decreases s.len(),
{
    let s2 = s.update(i, a);
    if i == s.len() - 1 {
        assert(s2.drop_last() =~= s.drop_last());
        assert(s2.last() == a);
    } else {
        assert(s2.drop_last() =~= s.drop_last().update(i, a));
        assert(s2.last() == s.last());
        lemma_sum_update(s.drop_last(), i, a);
    }
}

pub proof fn lemma_sum_push(s: Seq<UserAccount>, a: UserAccount)
    ensures
        sum_balances(s.push(a)) == sum_balances(s) + a.balance,
{
    assert(s.push(a).drop_last() =~= s);
    assert(s.push(a).last() == a);
}

pub proof fn lemma_sum_take_le(s: Seq<UserAccount>, i: int)
    requires
        0 <= i <= s.len(),
    ensures
        sum_balances(s.take(i)) <= sum_balances(s),
    decreases s.len() - i,
{
    if i == s.len() {
        assert(s.take(i) =~= s);
    } else {
        assert(s.take(i + 1).drop_last() =~= s.take(i));
        assert(s.take(i + 1).last() == s[i]);
        lemma_sum_take_le(s, i + 1);
    }
}

/// Entry `i` is the one `index_of` selects for its own principal.
pub proof fn lemma_account_at(s: Seq<UserAccount>, i: int)
    requires
        unique_principals(s),
        0 <= i < s.len(),
    ensures
        has_account_in(s, s[i].principal),
        index_of(s, s[i].principal) == i,
        account_in(s, s[i].principal) == s[i],
{
    let p = s[i].principal;
    assert(has_account_in(s, p));
    let j = index_of(s, p);
    assert(0 <= j < s.len() && s[j].principal == p);
    if j != i {
        assert(false);
    }
}

/// Replacing entry `i` by one of the same principal leaves every other
/// principal's view of the ledger unchanged.
pub proof fn lemma_update_same_key(s: Seq<UserAccount>, i: int, a: UserAccount)
    requires
        unique_principals(s),
        0 <= i < s.len(),
        a.principal == s[i].principal,
    ensures
        unique_principals(s.update(i, a)),
        forall|q: u64| has_account_in(s.update(i, a), q) == has_account_in(s, q),
        forall|q: u64|
            q != a.principal && has_account_in(s, q) ==> account_in(s.update(i, a), q)
                == account_in(s, q),
        has_account_in(s.update(i, a), a.principal),
        account_in(s.update(i, a), a.principal) == a,
        sum_balances(s.update(i, a)) == sum_balances(s) - s[i].balance + a.balance,
{
    let s2 = s.update(i, a);
    assert forall|k: int| 0 <= k < s.len() implies s2[k].principal == s[k].principal by {}
    assert(unique_principals(s2));
    assert forall|q: u64| has_account_in(s2, q) == has_account_in(s, q) by {
        if has_account_in(s, q) {
            let k = index_of(s, q);
            assert(s2[k].principal == q);
            assert(has_account_in(s2, q));
        }
        if has_account_in(s2, q) {
            let k = index_of(s2, q);
            assert(s[k].principal == q);
            assert(has_account_in(s, q));
        }
    }
    assert forall|q: u64|
        q != a.principal && has_account_in(s, q) implies account_in(s2, q) == account_in(
        s,
        q,
    ) by {
        let j = index_of(s, q);
        assert(0 <= j < s.len() && s[j].principal == q);
        assert(j != i);
        let j2 = index_of(s2, q);
        assert(0 <= j2 < s2.len() && s2[j2].principal == q);
        assert(j2 != i);
        assert(s[j2].principal == q);
        if j2 != j {
            assert(false);
        }
    }
    let j2 = index_of(s2, a.principal);
    assert(0 <= j2 < s2.len() && s2[j2].principal == a.principal);
    if j2 != i {
        assert(s[j2].principal == a.principal);
        assert(false);
    }
    lemma_sum_update(s, i, a);
}

/// Appending an entry for a fresh principal leaves every existing
/// principal's view unchanged.
pub proof fn lemma_push_new_key(s: Seq<UserAccount>, a: UserAccount)
    requires
        unique_principals(s),
        !has_account_in(s, a.principal),
    ensures
        unique_principals(s.push(a)),
        forall|q: u64|
            has_account_in(s.push(a), q) == (has_account_in(s, q) || q == a.principal),
        forall|q: u64|
            q != a.principal && has_account_in(s, q) ==> account_in(s.push(a), q) == account_in(
                s,
                q,
            ),
        account_in(s.push(a), a.principal) == a,
        sum_balances(s.push(a)) == sum_balances(s) + a.balance,
{
    let s2 = s.push(a);
    let n = s.len() as int;
    assert(s2[n] == a);
    assert forall|i: int, j: int| 0 <= i < j < s2.len() implies s2[i].principal
        != s2[j].principal by {
        if j < n {
            assert(s2[i] == s[i] && s2[j] == s[j]);
        } else {
            assert(s2[i] == s[i] && s2[j] == a);
            assert(has_account_in(s, s[i].principal));
        }
    }
    assert forall|q: u64| has_account_in(s2, q) == (has_account_in(s, q) || q == a.principal) by {
        if has_account_in(s, q) {
            let k = index_of(s, q);
            assert(s2[k].principal == q);
        }
        if q == a.principal {
            assert(s2[n].principal == q);
        }
        if has_account_in(s2, q) && q != a.principal {
            let k = index_of(s2, q);
            assert(k != n);
            assert(s[k].principal == q);
        }
    }
    assert forall|q: u64|
        q != a.principal && has_account_in(s, q) implies account_in(s2, q) == account_in(
        s,
        q,
    ) by {
        let j = index_of(s, q);
        let j2 = index_of(s2, q);
        assert(0 <= j2 < s2.len() && s2[j2].principal == q);
        assert(j2 != n);
        assert(s[j2].principal == q);
        if j2 != j {
            assert(false);
        }
    }
    let j2 = index_of(s2, a.principal);
    assert(0 <= j2 < s2.len() && s2[j2].principal == a.principal);
    if j2 != n {
        assert(s[j2].principal == a.principal);
        assert(has_account_in(s, a.principal));
        assert(false);
    }
    lemma_sum_push(s, a);
}

/// The custodial ledger: one entry per principal.
pub struct Ledger {
    pub accounts: Vec<UserAccount>,
}

/// Principals other than `p` see exactly the same ledger before and after.
pub open spec fn others_unchanged(pre: Ledger, post: Ledger, p: u64) -> bool {
    &&& forall|q: u64| q != p ==> post.has_account(q) == pre.has_account(q)
    &&& forall|q: u64|
        q != p && pre.has_account(q) ==> post.account_of(q) == pre.account_of(q)
}

impl Ledger {
    /// Well-formed: no principal has two entries.
    pub open spec fn wf(self) -> bool {
        unique_principals(self.accounts@)
    }

    pub open spec fn has_account(self, p: u64) -> bool {
        has_account_in(self.accounts@, p)
    }

    pub open spec fn account_of(self, p: u64) -> UserAccount {
        account_in(self.accounts@, p)
    }

    pub open spec fn balance_of(self, p: u64) -> u64 {
        balance_in(self.accounts@, p)
    }

    /// The sum of all spendable balances.
    pub open spec fn total(self) -> int {
        sum_balances(self.accounts@)
    }

    pub fn new() -> (r: Ledger)
        ensures
            r.wf(),
            r.total() == 0,
            forall|q: u64| !r.has_account(q),
            r.accounts@.len() == 0,
    {
        Ledger { accounts: Vec::new() }
    }

    fn find_index(&self, p: u64) -> (r: Option<usize>)
        ensures
            match r {
                Some(i) => i < self.accounts@.len() && self.accounts@[i as int].principal == p,
                None => !has_account_in(self.accounts@, p),
            },
    {
        let n = self.accounts.len();
        let mut i: usize = 0;
        while i < n
            invariant
                n == self.accounts@.len(),
                i <= n,
                forall|j: int| 0 <= j < i ==> self.accounts@[j].principal != p,
            decreases n - i,
        {
            if self.accounts[i].principal == p {
                return Some(i);
            }
            i += 1;
        }
        None
    }

    /// The caller's spendable balance; zero if no account exists yet.
    pub fn get_balance(&self, p: u64) -> (r: u64)
        requires
            self.wf(),
        ensures
            r == self.balance_of(p),
    {
        match self.find_index(p) {
            Some(i) => {
                let b = self.accounts[i].balance;
                proof {
                    lemma_account_at(self.accounts@, i as int);
                }
                b
            },
            None => 0,
        }
    }

    /// The caller's full account record, if one exists.
    pub fn get_account(&self, p: u64) -> (r: Option<UserAccount>)
        requires
            self.wf(),
        ensures
            match r {
                Some(a) => self.has_account(p) && a == self.account_of(p),
                None => !self.has_account(p),
            },
    {
        match self.find_index(p) {
            Some(i) => {
                let a = self.accounts[i];
                proof {
                    lemma_account_at(self.accounts@, i as int);
                }
                Some(a)
            },
            None => None,
        }
    }

    /// How many accounts exist (lifetime depositors).
    pub fn account_count(&self) -> (r: u64)
        ensures
            r == self.accounts@.len(),
    {
        self.accounts.len() as u64
    }

    /// The sum of all user balances, recomputed from the entries.
    pub fn calculate_total_deposits(&self) -> (r: u64)
        requires
            self.total() <= u64::MAX,
        ensures
            r == self.total(),
    {
        let n = self.accounts.len();
        let mut acc: u64 = 0;
        let mut i: usize = 0;
        while i < n
            invariant
                n == self.accounts@.len(),
                i <= n,
                acc == sum_balances(self.accounts@.take(i as int)),
                sum_balances(self.accounts@) <= u64::MAX,
            decreases n - i,
        {
            proof {
                assert(self.accounts@.take(i + 1).drop_last() =~= self.accounts@.take(i as int));
                assert(self.accounts@.take(i + 1).last() == self.accounts@[i as int]);
                lemma_sum_take_le(self.accounts@, i + 1);
                lemma_sum_nonneg(self.accounts@.take(i as int));
            }
            acc = acc + self.accounts[i].balance;
            i += 1;
        }
        proof {
            assert(self.accounts@.take(n as int) =~= self.accounts@);
        }
        acc
    }

    /// Credit a deposit: the balance and the lifetime deposit counter both
    /// grow by `amount`; the account is created if it does not exist.
    /// Fails only when a counter would wrap, and then changes nothing.
    pub fn credit_deposit(&mut self, p: u64, amount: u64, now: u64) -> (r: Result<u64, ErrorKind>)
        requires
            old(self).wf(),
        ensures
            final(self).wf(),
            match r {
                Ok(b) => {
                    &&& b == old(self).balance_of(p) + amount
                    &&& final(self).has_account(p)
                    &&& final(self).account_of(p).balance == b
                    &&& final(self).account_of(p).principal == p
                    &&& final(self).balance_of(p) == b
                    &&& final(self).total() == old(self).total() + amount
                    &&& others_unchanged(*old(self), *final(self), p)
                    &&& final(self).account_of(p).is_locked == (old(self).has_account(p)
                        && old(self).account_of(p).is_locked)
                    &&& final(self).account_of(p).total_withdrawn == (if old(self).has_account(p) {
                        old(self).account_of(p).total_withdrawn
                    } else {
                        0u64
                    })
                    &&& final(self).account_of(p).total_wagered == (if old(self).has_account(p) {
                        old(self).account_of(p).total_wagered
                    } else {
                        0u64
                    })
                    &&& final(self).account_of(p).total_deposited == (if old(self).has_account(p) {
                        old(self).account_of(p).total_deposited + amount
                    } else {
                        amount as int
                    })
                },
                Err(e) => {
                    &&& *final(self) == *old(self)
                    &&& e == ErrorKind::Overflow
                    &&& old(self).has_account(p)
                    &&& (old(self).account_of(p).balance + amount > u64::MAX || old(
                        self,
                    ).account_of(p).total_deposited + amount > u64::MAX)
                },
            },
    {
        match self.find_index(p) {
            Some(i) => {
                proof {
                    lemma_account_at(self.accounts@, i as int);
                }
                let acc = self.accounts[i];
                let new_balance = match acc.balance.checked_add(amount) {
                    Some(b) => b,
                    None => {
                        return Err(ErrorKind::Overflow);
                    },
                };
                let new_deposited = match acc.total_deposited.checked_add(amount) {
                    Some(d) => d,
                    None => {
                        return Err(ErrorKind::Overflow);
                    },
                };
                let updated = UserAccount {
                    balance: new_balance,
                    total_deposited: new_deposited,
                    last_activity: now,
                    ..acc
                };
                proof {
                    lemma_update_same_key(self.accounts@, i as int, updated);
                }
                self.accounts.set(i, updated);
                Ok(new_balance)
            },
            None => {
                let fresh = UserAccount {
                    principal: p,
                    balance: amount,
                    total_deposited: amount,
                    total_withdrawn: 0,
                    total_wagered: 0,
                    is_locked: false,
                    created_at: now,
                    last_activity: now,
                };
                proof {
                    lemma_push_new_key(self.accounts@, fresh);
                }
                self.accounts.push(fresh);
                Ok(amount)
            },
        }
    }

    /// Take `amount` out of the balance at the start of a withdrawal.
    /// Reads the account at call time; fails on a locked account or when
    /// the present balance cannot cover `amount`, changing nothing.
    pub fn debit_for_withdrawal(&mut self, p: u64, amount: u64, now: u64) -> (r: Result<
        u64,
        ErrorKind,
    >)
        requires
            old(self).wf(),
        ensures
            final(self).wf(),
            match r {
                Ok(b) => {
                    &&& old(self).has_account(p)
                    &&& !old(self).account_of(p).is_locked
                    &&& old(self).balance_of(p) >= amount
                    &&& b == old(self).balance_of(p) - amount
                    &&& final(self).has_account(p)
                    &&& final(self).balance_of(p) == b
                    &&& final(self).account_of(p) == (UserAccount {
                        balance: b,
                        last_activity: now,
                        ..old(self).account_of(p)
                    })
                    &&& final(self).total() == old(self).total() - amount
                    &&& others_unchanged(*old(self), *final(self), p)
                },
                Err(e) => {
                    &&& *final(self) == *old(self)
                    &&& (e == ErrorKind::AccountLocked || e == ErrorKind::InsufficientBalance)
                    &&& (e == ErrorKind::AccountLocked <==> (old(self).has_account(p) && old(
                        self,
                    ).account_of(p).is_locked))
                    &&& (e == ErrorKind::InsufficientBalance ==> old(self).balance_of(p) < amount
                        || !old(self).has_account(p))
                },
            },
    {
        match self.find_index(p) {
            Some(i) => {
                proof {
                    lemma_account_at(self.accounts@, i as int);
                }
                let acc = self.accounts[i];
                if acc.is_locked {
                    return Err(ErrorKind::AccountLocked);
                }
                if acc.balance < amount {
                    return Err(ErrorKind::InsufficientBalance);
                }
                let updated = UserAccount {
                    balance: acc.balance - amount,
                    last_activity: now,
                    ..acc
                };
                proof {
                    lemma_update_same_key(self.accounts@, i as int, updated);
                }
                self.accounts.set(i, updated);
                Ok(updated.balance)
            },
            None => Err(ErrorKind::InsufficientBalance),
        }
    }

    /// Put `amount` back after a failed or expired withdrawal.
    pub fn restore_balance(&mut self, p: u64, amount: u64) -> (r: u64)
        requires
            old(self).wf(),
            old(self).has_account(p),
            old(self).account_of(p).balance + amount <= u64::MAX,
        ensures
            final(self).wf(),
            r == old(self).balance_of(p) + amount,
            final(self).has_account(p),
            final(self).balance_of(p) == r,
            final(self).account_of(p) == (UserAccount {
                balance: r,
                ..old(self).account_of(p)
            }),
            final(self).total() == old(self).total() + amount,
            others_unchanged(*old(self), *final(self), p),
    {
        let i = match self.find_index(p) {
            Some(i) => i,
            None => {
                proof {
                    assert(false);
                }
                0
            },
        };
        proof {
            lemma_account_at(self.accounts@, i as int);
        }
        let acc = self.accounts[i];
        let updated = UserAccount { balance: acc.balance + amount, ..acc };
        proof {
            lemma_update_same_key(self.accounts@, i as int, updated);
        }
        self.accounts.set(i, updated);
        updated.balance
    }

    /// Count a completed withdrawal in the lifetime counter.
    pub fn note_withdrawal_completed(&mut self, p: u64, amount: u64) -> (r: Result<(), ErrorKind>)
        requires
            old(self).wf(),
        ensures
            final(self).wf(),
            match r {
                Ok(()) => {
                    &&& old(self).has_account(p)
                    &&& final(self).has_account(p)
                    &&& final(self).account_of(p) == (UserAccount {
                        total_withdrawn: (old(self).account_of(p).total_withdrawn + amount) as u64,
                        ..old(self).account_of(p)
                    })
                    &&& final(self).total() == old(self).total()
                    &&& final(self).balance_of(p) == old(self).balance_of(p)
                    &&& others_unchanged(*old(self), *final(self), p)
                },
                Err(e) => {
                    &&& *final(self) == *old(self)
                    &&& (e == ErrorKind::Overflow <==> old(self).has_account(p) && old(
                        self,
                    ).account_of(p).total_withdrawn + amount > u64::MAX)
                    &&& (e == ErrorKind::InsufficientBalance <==> !old(self).has_account(p))
                    &&& (e == ErrorKind::Overflow || e == ErrorKind::InsufficientBalance)
                },
            },
    {
        match self.find_index(p) {
            Some(i) => {
                proof {
                    lemma_account_at(self.accounts@, i as int);
                }
                let acc = self.accounts[i];
                let new_withdrawn = match acc.total_withdrawn.checked_add(amount) {
                    Some(w) => w,
                    None => {
                        return Err(ErrorKind::Overflow);
                    },
                };
                let updated = UserAccount { total_withdrawn: new_withdrawn, ..acc };
                proof {
                    lemma_update_same_key(self.accounts@, i as int, updated);
                }
                self.accounts.set(i, updated);
                Ok(())
            },
            None => Err(ErrorKind::InsufficientBalance),
        }
    }

    /// Atomically take the stake and lock the account at the start of a
    /// wager. Reads the account at call time; a locked account or a balance
    /// below `bet` fails and changes nothing.
    pub fn debit_and_lock(&mut self, p: u64, bet: u64, now: u64) -> (r: Result<u64, ErrorKind>)
        requires
            old(self).wf(),
        ensures
            final(self).wf(),
            match r {
                Ok(b) => {
                    &&& old(self).has_account(p)
                    &&& !old(self).account_of(p).is_locked
                    &&& old(self).balance_of(p) >= bet
                    &&& b == old(self).balance_of(p) - bet
                    &&& final(self).has_account(p)
                    &&& final(self).balance_of(p) == b
                    &&& final(self).account_of(p) == (UserAccount {
                        balance: b,
                        is_locked: true,
                        last_activity: now,
                        ..old(self).account_of(p)
                    })
                    &&& final(self).total() == old(self).total() - bet
                    &&& others_unchanged(*old(self), *final(self), p)
                },
                Err(e) => {
                    &&& *final(self) == *old(self)
                    &&& (e == ErrorKind::AccountLocked || e == ErrorKind::InsufficientBalance)
                    &&& (e == ErrorKind::AccountLocked <==> (old(self).has_account(p) && old(
                        self,
                    ).account_of(p).is_locked))
                    &&& (old(self).has_account(p) && !old(self).account_of(p).is_locked && old(
                        self,
                    ).balance_of(p) >= bet ==> r is Ok)
                },
            },
    {
        match self.find_index(p) {
            Some(i) => {
                proof {
                    lemma_account_at(self.accounts@, i as int);
                }
                let acc = self.accounts[i];
                if acc.is_locked {
                    return Err(ErrorKind::AccountLocked);
                }
                if acc.balance < bet {
                    return Err(ErrorKind::InsufficientBalance);
                }
                let updated = UserAccount {
                    balance: acc.balance - bet,
                    is_locked: true,
                    last_activity: now,
                    ..acc
                };
                proof {
                    lemma_update_same_key(self.accounts@, i as int, updated);
                }
                self.accounts.set(i, updated);
                Ok(updated.balance)
            },
            None => Err(ErrorKind::InsufficientBalance),
        }
    }

    /// Atomically pay out a settled wager and unlock the account, counting
    /// `bet` in the lifetime wagered counter. Fails only when that counter
    /// would wrap, and then changes nothing.
    pub fn settle_and_unlock(&mut self, p: u64, payout: u64, bet: u64, now: u64) -> (r: Result<
        u64,
        ErrorKind,
    >)
        requires
            old(self).wf(),
            old(self).has_account(p),
            old(self).account_of(p).balance + payout <= u64::MAX,
        ensures
            final(self).wf(),
            match r {
                Ok(b) => {
                    &&& b == old(self).balance_of(p) + payout
                    &&& final(self).has_account(p)
                    &&& final(self).balance_of(p) == b
                    &&& final(self).account_of(p) == (UserAccount {
                        balance: b,
                        is_locked: false,
                        total_wagered: (old(self).account_of(p).total_wagered + bet) as u64,
                        last_activity: now,
                        ..old(self).account_of(p)
                    })
                    &&& final(self).total() == old(self).total() + payout
                    &&& others_unchanged(*old(self), *final(self), p)
                },
                Err(e) => {
                    &&& *final(self) == *old(self)
                    &&& e == ErrorKind::Overflow
                    &&& old(self).account_of(p).total_wagered + bet > u64::MAX
                },
            },
    {
        let i = match self.find_index(p) {
            Some(i) => i,
            None => {
                proof {
                    assert(false);
                }
                0
            },
        };
        proof {
            lemma_account_at(self.accounts@, i as int);
        }
        let acc = self.accounts[i];
        let new_wagered = match acc.total_wagered.checked_add(bet) {
            Some(w) => w,
            None => {
                return Err(ErrorKind::Overflow);
            },
        };
        let updated = UserAccount {
            balance: acc.balance + payout,
            is_locked: false,
            total_wagered: new_wagered,
            last_activity: now,
            ..acc
        };
        proof {
            lemma_update_same_key(self.accounts@, i as int, updated);
        }
        self.accounts.set(i, updated);
        Ok(updated.balance)
    }

    /// Give the stake back and unlock the account after a failed draw.
    pub fn refund_and_unlock(&mut self, p: u64, bet: u64, now: u64) -> (r: u64)
        requires
            old(self).wf(),
            old(self).has_account(p),
            old(self).account_of(p).balance + bet <= u64::MAX,
        ensures
            final(self).wf(),
            r == old(self).balance_of(p) + bet,
            final(self).has_account(p),
            final(self).balance_of(p) == r,
            final(self).account_of(p) == (UserAccount {
                balance: r,
                is_locked: false,
                last_activity: now,
                ..old(self).account_of(p)
            }),
            final(self).total() == old(self).total() + bet,
            others_unchanged(*old(self), *final(self), p),
    {
        let i = match self.find_index(p) {
            Some(i) => i,
            None => {
                proof {
                    assert(false);
                }
                0
            },
        };
        proof {
            lemma_account_at(self.accounts@, i as int);
        }
        let acc = self.accounts[i];
        let updated = UserAccount {
            balance: acc.balance + bet,
            is_locked: false,
            last_activity: now,
            ..acc
        };
        proof {
            lemma_update_same_key(self.accounts@, i as int, updated);
        }
        self.accounts.set(i, updated);
        updated.balance
    }

    /// Overwrite a balance outright (the hook game logic uses); creates the
    /// account if it does not exist.
    pub fn update_balance(&mut self, p: u64, new_balance: u64, now: u64) -> (r: Result<
        (),
        ErrorKind,
    >)
        requires
            old(self).wf(),
        ensures
            final(self).wf(),
            r is Ok,
            final(self).has_account(p),
            final(self).balance_of(p) == new_balance,
            final(self).total() == old(self).total() - old(self).balance_of(p) + new_balance,
            others_unchanged(*old(self), *final(self), p),
    {
        match self.find_index(p) {
            Some(i) => {
                proof {
                    lemma_account_at(self.accounts@, i as int);
                }
                let acc = self.accounts[i];
                let updated = UserAccount { balance: new_balance, last_activity: now, ..acc };
                proof {
                    lemma_update_same_key(self.accounts@, i as int, updated);
                }
                self.accounts.set(i, updated);
                Ok(())
            },
            None => {
                let fresh = UserAccount {
                    principal: p,
                    balance: new_balance,
                    total_deposited: 0,
                    total_withdrawn: 0,
                    total_wagered: 0,
                    is_locked: false,
                    created_at: now,
                    last_activity: now,
                };
                proof {
                    lemma_push_new_key(self.accounts@, fresh);
                }
                self.accounts.push(fresh);
                Ok(())
            },
        }
    }
}

/// One account's balance never exceeds the sum of all balances.
pub proof fn lemma_balance_at_le_sum(s: Seq<UserAccount>, i: int)
    requires
        0 <= i < s.len(),
    ensures
        s[i].balance <= sum_balances(s),
    decreases s.len(),
{
    if i == s.len() - 1 {
        lemma_sum_nonneg(s.drop_last());
    } else {
        assert(s.drop_last()[i] == s[i]);
        lemma_balance_at_le_sum(s.drop_last(), i);
    }
}

/// Any principal's balance never exceeds the sum of all balances.
pub proof fn lemma_balance_le_sum(s: Seq<UserAccount>, p: u64)
    ensures
        balance_in(s, p) <= sum_balances(s),
{
    if has_account_in(s, p) {
        let i = index_of(s, p);
        assert(0 <= i < s.len() && s[i].principal == p);
        lemma_balance_at_le_sum(s, i);
    } else {
        lemma_sum_nonneg(s);
    }
}

/// Unchanged entries mean unchanged balances for everyone but `p`.
pub proof fn lemma_others_balance(pre: Ledger, post: Ledger, p: u64, q: u64)
    requires
        others_unchanged(pre, post, p),
        q != p,
    ensures
        post.balance_of(q) == pre.balance_of(q),
{
    assert(post.has_account(q) == pre.has_account(q));
    if pre.has_account(q) {
        assert(post.account_of(q) == pre.account_of(q));
    }
}

} // verus!
