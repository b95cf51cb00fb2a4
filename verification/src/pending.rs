use vstd::prelude::*;

use crate::errors::ErrorKind;

verus! {

/// What kind of outgoing transfer a pending record stands for. An LP
/// withdrawal remembers the burned shares and the reserve it took, so that
/// a failure can put both back; `amount` is the net sum owed to the user.
#[derive(Clone, Copy, Debug, PartialEq, Eq, Structural)]
pub enum WithdrawalType {
    User { amount: u64 },
    LP { shares: u128, reserve: u128, amount: u64 },
}

impl WithdrawalType {
    /// The amount the external transfer will carry.
    pub open spec fn spec_amount(self) -> u64 {
        match self {
            WithdrawalType::User { amount } => amount,
            WithdrawalType::LP { amount, .. } => amount,
        }
    }

    /// What the record owes the system view: for a user withdrawal the
    /// debited balance, for an LP withdrawal the whole deducted reserve
    /// (the net amount plus the fee that accrues only on completion).
    pub open spec fn spec_obligation(self) -> int {
        match self {
            WithdrawalType::User { amount } => amount as int,
            WithdrawalType::LP { reserve, .. } => reserve as int,
        }
    }

    /// A record the accounting can always unwind: the LP net amount never
    /// exceeds the deducted reserve, which itself fits in 64 bits.
    pub open spec fn spec_ok(self) -> bool {
        match self {
            WithdrawalType::User { amount } => true,
            WithdrawalType::LP { shares, reserve, amount } => shares <= u64::MAX && reserve
                <= u64::MAX && amount <= reserve,
        }
    }
}

/// One unresolved outgoing transfer. `created_at` is the timestamp handed
/// to the external ledger as its deduplication key: every retry reuses it,
/// so the ledger never pays the same withdrawal twice.
#[derive(Debug)]
pub struct PendingWithdrawal {
    pub withdrawal_type: WithdrawalType,
    pub created_at: u64,
    pub retries: u8,
    pub last_error: Option<String>,
}

pub struct PendingEntry {
    pub user: u64,
    pub withdrawal: PendingWithdrawal,
}

pub open spec fn has_pending_in(s: Seq<PendingEntry>, p: u64) -> bool {
    exists|i: int| 0 <= i < s.len() && s[i].user == p
}

pub open spec fn pending_index_of(s: Seq<PendingEntry>, p: u64) -> int {
    choose|i: int| 0 <= i < s.len() && s[i].user == p
}

pub open spec fn pending_in(s: Seq<PendingEntry>, p: u64) -> PendingWithdrawal {
    s[pending_index_of(s, p)].withdrawal
}

/// The sum of what all pending transfers owe.
pub open spec fn sum_pending(s: Seq<PendingEntry>) -> int
    decreases s.len(),
{
    if s.len() == 0 {
        0
    } else {
        sum_pending(s.drop_last()) + s.last().withdrawal.withdrawal_type.spec_obligation()
    }
}

pub open spec fn unique_users(s: Seq<PendingEntry>) -> bool {
    forall|i: int, j: int| 0 <= i < j < s.len() ==> s[i].user != s[j].user
}

pub proof fn lemma_sum_pending_nonneg(s: Seq<PendingEntry>)
    ensures
        sum_pending(s) >= 0,
    decreases s.len(),
{
    if s.len() > 0 {
        lemma_sum_pending_nonneg(s.drop_last());
    }
}

pub proof fn lemma_sum_pending_push(s: Seq<PendingEntry>, a: PendingEntry)
    ensures
        sum_pending(s.push(a)) == sum_pending(s) + a.withdrawal.withdrawal_type.spec_obligation(),
{
    assert(s.push(a).drop_last() =~= s);
    assert(s.push(a).last() == a);
}

pub proof fn lemma_sum_pending_update(s: Seq<PendingEntry>, i: int, a: PendingEntry)
    requires
        0 <= i < s.len(),
    ensures
        sum_pending(s.update(i, a)) == sum_pending(s) - s[i].withdrawal.withdrawal_type.spec_obligation()
            + a.withdrawal.withdrawal_type.spec_obligation(),
    decreases s.len(),
{
    let s2 = s.update(i, a);
    if i == s.len() - 1 {
        assert(s2.drop_last() =~= s.drop_last());
        assert(s2.last() == a);
    } else {
        assert(s2.drop_last() =~= s.drop_last().update(i, a));
        assert(s2.last() == s.last());
        lemma_sum_pending_update(s.drop_last(), i, a);
    }
}

pub proof fn lemma_pending_at(s: Seq<PendingEntry>, i: int)
    requires
        unique_users(s),
        0 <= i < s.len(),
    ensures
        has_pending_in(s, s[i].user),
        pending_index_of(s, s[i].user) == i,
{
    let p = s[i].user;
    assert(has_pending_in(s, p));
    let j = pending_index_of(s, p);
    assert(0 <= j < s.len() && s[j].user == p);
    if j != i {
        assert(false);
    }
}

pub proof fn lemma_pending_push(s: Seq<PendingEntry>, a: PendingEntry)
    requires
        unique_users(s),
        !has_pending_in(s, a.user),
    ensures
        unique_users(s.push(a)),
        has_pending_in(s.push(a), a.user),
        pending_in(s.push(a), a.user) == a.withdrawal,
        forall|q: u64|
            q != a.user ==> has_pending_in(s.push(a), q) == has_pending_in(s, q),
        forall|q: u64|
            q != a.user && has_pending_in(s, q) ==> pending_in(s.push(a), q) == pending_in(s, q),
        sum_pending(s.push(a)) == sum_pending(s)
            + a.withdrawal.withdrawal_type.spec_obligation(),
{
    let s2 = s.push(a);
    let n = s.len() as int;
    assert(s2[n] == a);
    assert forall|i: int, j: int| 0 <= i < j < s2.len() implies s2[i].user != s2[j].user by {
        if j < n {
            assert(s2[i] == s[i] && s2[j] == s[j]);
        } else {
            assert(s2[i] == s[i] && s2[j] == a);
            assert(has_pending_in(s, s[i].user));
        }
    }
    assert forall|q: u64| q != a.user implies has_pending_in(s2, q) == has_pending_in(s, q) by {
        if has_pending_in(s, q) {
            let k = pending_index_of(s, q);
            assert(s2[k].user == q);
        }
        if has_pending_in(s2, q) {
            let k = pending_index_of(s2, q);
            assert(k != n);
            assert(s[k].user == q);
        }
    }
    assert forall|q: u64|
        q != a.user && has_pending_in(s, q) implies pending_in(s2, q) == pending_in(s, q) by {
        let j = pending_index_of(s, q);
        let j2 = pending_index_of(s2, q);
        assert(0 <= j2 < s2.len() && s2[j2].user == q);
        assert(j2 != n);
        assert(s[j2].user == q);
        if j2 != j {
            assert(false);
        }
    }
    let j2 = pending_index_of(s2, a.user);
    assert(has_pending_in(s2, a.user));
    if j2 != n {
        assert(s[j2].user == a.user);
        assert(false);
    }
    lemma_sum_pending_push(s, a);
}

pub proof fn lemma_pending_swap_remove(s: Seq<PendingEntry>, i: int)
    requires
        unique_users(s),
        0 <= i < s.len(),
    ensures
        unique_users(s.update(i, s.last()).drop_last()),
        !has_pending_in(s.update(i, s.last()).drop_last(), s[i].user),
        forall|q: u64|
            q != s[i].user ==> has_pending_in(s.update(i, s.last()).drop_last(), q)
                == has_pending_in(s, q),
        forall|q: u64|
            q != s[i].user && has_pending_in(s, q) ==> pending_in(
                s.update(i, s.last()).drop_last(),
                q,
            ) == pending_in(s, q),
        sum_pending(s.update(i, s.last()).drop_last()) == sum_pending(s)
            - s[i].withdrawal.withdrawal_type.spec_obligation(),
{
    let p = s[i].user;
    let n = s.len() as int;
    let s2 = s.update(i, s.last()).drop_last();
    assert forall|k: int, l: int| 0 <= k < l < s2.len() implies s2[k].user != s2[l].user by {
        if k == i {
            assert(s2[k] == s[n - 1] && s2[l] == s[l]);
        } else if l == i {
            assert(s2[l] == s[n - 1] && s2[k] == s[k]);
        } else {
            assert(s2[k] == s[k] && s2[l] == s[l]);
        }
    }
    assert forall|k: int| 0 <= k < s2.len() implies s2[k].user != p by {
        if k == i {
            assert(s2[k] == s[n - 1]);
        } else {
            assert(s2[k] == s[k]);
        }
    }
    assert forall|q: u64| q != p implies has_pending_in(s2, q) == has_pending_in(s, q) by {
        if has_pending_in(s, q) {
            let k = pending_index_of(s, q);
            if k == n - 1 {
                if i < n - 1 {
                    assert(s2[i] == s[n - 1]);
                } else {
                    assert(false);
                }
            } else if k == i {
                assert(false);
            } else {
                assert(s2[k] == s[k]);
            }
        }
        if has_pending_in(s2, q) {
            let k = pending_index_of(s2, q);
            if k == i {
                assert(s[n - 1].user == q);
            } else {
                assert(s[k].user == q);
            }
        }
    }
    assert forall|q: u64|
        q != p && has_pending_in(s, q) implies pending_in(s2, q) == pending_in(s, q) by {
        let j = pending_index_of(s, q);
        let j2 = pending_index_of(s2, q);
        assert(0 <= j2 < s2.len() && s2[j2].user == q);
        if j2 == i {
            assert(s2[j2] == s[n - 1]);
            assert(s[n - 1].user == q);
            if j != n - 1 {
                assert(false);
            }
            assert(pending_in(s2, q) == s[n - 1].withdrawal);
        } else {
            assert(s2[j2] == s[j2]);
            if j2 != j {
                assert(false);
            }
        }
    }
    // the sum: removing entry i
    lemma_sum_pending_update(s, i, s.last());
    assert(s.update(i, s.last()).drop_last() =~= s2);
    lemma_sum_drop_last(s.update(i, s.last()));
}

proof fn lemma_sum_drop_last(s: Seq<PendingEntry>)
    requires
        s.len() > 0,
    ensures
        sum_pending(s.drop_last()) == sum_pending(s)
            - s.last().withdrawal.withdrawal_type.spec_obligation(),
{
}

/// The pending-transfer map: at most one unresolved transfer per principal.
pub struct PendingMap {
    pub entries: Vec<PendingEntry>,
}

impl PendingMap {
    /// Well-formed: one record per user, every record unwindable.
    pub open spec fn wf(self) -> bool {
        &&& unique_users(self.entries@)
        &&& forall|i: int|
            0 <= i < self.entries@.len()
                ==> (#[trigger] self.entries@[i]).withdrawal.withdrawal_type.spec_ok()
    }

    pub open spec fn has_pending(self, p: u64) -> bool {
        has_pending_in(self.entries@, p)
    }

    pub open spec fn pending_of(self, p: u64) -> PendingWithdrawal {
        pending_in(self.entries@, p)
    }

    /// The sum of everything the pending transfers still owe.
    pub open spec fn total_obligation(self) -> int {
        sum_pending(self.entries@)
    }

    pub fn new() -> (r: PendingMap)
        ensures
            r.wf(),
            r.total_obligation() == 0,
            forall|q: u64| !r.has_pending(q),
            r.entries@.len() == 0,
    {
        PendingMap { entries: Vec::new() }
    }

    pub fn len(&self) -> (r: usize)
        ensures
            r == self.entries@.len(),
    {
        self.entries.len()
    }

    fn find_index(&self, p: u64) -> (r: Option<usize>)
        ensures
            match r {
                Some(i) => i < self.entries@.len() && self.entries@[i as int].user == p,
                None => !has_pending_in(self.entries@, p),
            },
    {
        let n = self.entries.len();
        let mut i: usize = 0;
        while i < n
            invariant
                n == self.entries@.len(),
                i <= n,
                forall|j: int| 0 <= j < i ==> self.entries@[j].user != p,
            decreases n - i,
        {
            if self.entries[i].user == p {
                return Some(i);
            }
            i += 1;
        }
        None
    }

    /// Whether `p` has an unresolved transfer.
    pub fn contains(&self, p: u64) -> (r: bool)
        ensures
            r == self.has_pending(p),
    {
        match self.find_index(p) {
            Some(_) => true,
            None => false,
        }
    }

    /// A borrowed view of `p`'s pending record.
    pub fn get(&self, p: u64) -> (r: Option<&PendingWithdrawal>)
        requires
            self.wf(),
        ensures
            match r {
                Some(w) => self.has_pending(p) && *w == self.pending_of(p),
                None => !self.has_pending(p),
            },
    {
        match self.find_index(p) {
            Some(i) => {
                proof {
                    lemma_pending_at(self.entries@, i as int);
                }
                Some(&self.entries[i].withdrawal)
            },
            None => None,
        }
    }

    /// Record a new pending transfer. Fails, changing nothing, exactly
    /// when the user already has one: at most one per principal, ever.
    pub fn insert(&mut self, p: u64, w: PendingWithdrawal) -> (r: Result<(), ErrorKind>)
        requires
            old(self).wf(),
            w.withdrawal_type.spec_ok(),
        ensures
            final(self).wf(),
            match r {
                Ok(()) => {
                    &&& !old(self).has_pending(p)
                    &&& final(self).has_pending(p)
                    &&& final(self).pending_of(p) == w
                    &&& forall|q: u64|
                        q != p ==> final(self).has_pending(q) == old(self).has_pending(q)
                    &&& forall|q: u64|
                        q != p && old(self).has_pending(q) ==> final(self).pending_of(q) == old(
                            self,
                        ).pending_of(q)
                    &&& final(self).total_obligation() == old(self).total_obligation()
                        + w.withdrawal_type.spec_obligation()
                },
                Err(e) => {
                    &&& *final(self) == *old(self)
                    &&& e == ErrorKind::WithdrawalInProgress
                    &&& old(self).has_pending(p)
                },
            },
    {
        match self.find_index(p) {
            Some(_) => Err(ErrorKind::WithdrawalInProgress),
            None => {
                let entry = PendingEntry { user: p, withdrawal: w };
                proof {
                    lemma_pending_push(self.entries@, entry);
                }
                self.entries.push(entry);
                Ok(())
            },
        }
    }

    /// Take `p`'s pending record out of the map and hand it back.
    pub fn remove(&mut self, p: u64) -> (r: Result<PendingWithdrawal, ErrorKind>)
        requires
            old(self).wf(),
        ensures
            final(self).wf(),
            match r {
                Ok(w) => {
                    &&& old(self).has_pending(p)
                    &&& w == old(self).pending_of(p)
                    &&& !final(self).has_pending(p)
                    &&& forall|q: u64|
                        q != p ==> final(self).has_pending(q) == old(self).has_pending(q)
                    &&& forall|q: u64|
                        q != p && old(self).has_pending(q) ==> final(self).pending_of(q) == old(
                            self,
                        ).pending_of(q)
                    &&& final(self).total_obligation() == old(self).total_obligation()
                        - w.withdrawal_type.spec_obligation()
                },
                Err(e) => {
                    &&& *final(self) == *old(self)
                    &&& e == ErrorKind::NoPendingWithdrawal
                    &&& !old(self).has_pending(p)
                },
            },
    {
        match self.find_index(p) {
            Some(i) => {
                proof {
                    lemma_pending_at(self.entries@, i as int);
                    lemma_pending_swap_remove(self.entries@, i as int);
                }
                let entry = self.entries.swap_remove(i);
                Ok(entry.withdrawal)
            },
            None => Err(ErrorKind::NoPendingWithdrawal),
        }
    }

    /// Replace `p`'s record (same user, new retry count or error text).
    pub fn replace(&mut self, p: u64, w: PendingWithdrawal) -> (r: Result<(), ErrorKind>)
        requires
            old(self).wf(),
            w.withdrawal_type.spec_ok(),
        ensures
            final(self).wf(),
            match r {
                Ok(()) => {
                    &&& old(self).has_pending(p)
                    &&& final(self).has_pending(p)
                    &&& final(self).pending_of(p) == w
                    &&& forall|q: u64|
                        q != p ==> final(self).has_pending(q) == old(self).has_pending(q)
                    &&& forall|q: u64|
                        q != p && old(self).has_pending(q) ==> final(self).pending_of(q) == old(
                            self,
                        ).pending_of(q)
                    &&& final(self).total_obligation() == old(self).total_obligation() - old(
                        self,
                    ).pending_of(p).withdrawal_type.spec_obligation()
                        + w.withdrawal_type.spec_obligation()
                },
                Err(e) => {
                    &&& *final(self) == *old(self)
                    &&& e == ErrorKind::NoPendingWithdrawal
                    &&& !old(self).has_pending(p)
                },
            },
    {
        match self.find_index(p) {
            Some(i) => {
                proof {
                    lemma_pending_at(self.entries@, i as int);
                    lemma_pending_swap_remove(self.entries@, i as int);
                }
                let _ = self.entries.swap_remove(i);
                let entry = PendingEntry { user: p, withdrawal: w };
                proof {
                    lemma_pending_push(self.entries@, entry);
                }
                self.entries.push(entry);
                Ok(())
            },
            None => Err(ErrorKind::NoPendingWithdrawal),
        }
    }


    /// The sum of what all pending transfers owe, recomputed.
    pub fn total_obligation_now(&self) -> (r: u64)
        requires
            self.wf(),
            self.total_obligation() <= u64::MAX,
        ensures
            r == self.total_obligation(),
    {
        let n = self.entries.len();
        let mut acc: u64 = 0;
        let mut i: usize = 0;
        while i < n
            invariant
                self.wf(),
                n == self.entries@.len(),
                i <= n,
                acc == sum_pending(self.entries@.take(i as int)),
                sum_pending(self.entries@) <= u64::MAX,
            decreases n - i,
        {
            proof {
                assert(self.entries@.take(i + 1).drop_last() =~= self.entries@.take(i as int));
                assert(self.entries@.take(i + 1).last() == self.entries@[i as int]);
                lemma_sum_pending_take_le(self.entries@, i + 1);
                lemma_sum_pending_nonneg(self.entries@.take(i as int));
                assert(self.entries@[i as int].withdrawal.withdrawal_type.spec_ok());
            }
            let ob: u64 = match &self.entries[i].withdrawal.withdrawal_type {
                WithdrawalType::User { amount } => *amount,
                WithdrawalType::LP { reserve, .. } => *reserve as u64,
            };
            acc = acc + ob;
            i += 1;
        }
        proof {
            assert(self.entries@.take(n as int) =~= self.entries@);
        }
        acc
    }

    /// The user of the entry at `i`, for batch sweeps over the map.
    pub fn user_at(&self, i: usize) -> (r: u64)
        requires
            i < self.entries@.len(),
        ensures
            r == self.entries@[i as int].user,
            self.wf() ==> self.has_pending(r),
    {
        proof {
            if self.wf() {
                lemma_pending_at(self.entries@, i as int);
            }
        }
        self.entries[i].user
    }
}

/// How the host can reject an outbound call before the ledger answers.
#[derive(Clone, Copy, Debug, PartialEq, Eq, Structural)]
pub enum RejectionCode {
    SysFatal,
    SysTransient,
    DestinationInvalid,
    CanisterReject,
    CanisterError,
    Unknown,
}

/// How the external token ledger can reject a transfer it did receive.
#[derive(Clone, Copy, Debug, PartialEq, Eq, Structural)]
pub enum LedgerTransferError {
    BadFee,
    BadBurn,
    InsufficientFunds,
    InsufficientAllowance,
    TooOld,
    CreatedInFuture,
    Duplicate,
    BadRequest,
    DestinationInvalid,
    TemporarilyUnavailable,
    GenericError,
}

/// What a transfer attempt's rejection means for the pending record: a
/// definite failure is safe to roll back; an uncertain one may still have
/// moved the funds, so the record is kept and retried under the same key;
/// a duplicate rejection means an earlier attempt under the same key
/// already paid, so the record must be completed, never rolled back.
#[derive(Clone, Copy, Debug, PartialEq, Eq, Structural)]
pub enum FailureClass {
    Definite,
    Uncertain,
    AlreadyCompleted,
}

/// Everything the external ledger call can come back with.
pub enum TransferOutcome {
    /// The ledger accepted the transfer into this block.
    Accepted { block_index: u64 },
    /// The ledger answered, rejecting the transfer; `detail` is the text
    /// kept for the audit trail.
    Rejected { error: LedgerTransferError, detail: String },
    /// The call itself failed with a host rejection code.
    CallFailed { code: RejectionCode, detail: String },
}

/// What a ledger-level rejection means. `TemporarilyUnavailable` leaves
/// the outcome open; `Duplicate` of a transfer that reused its
/// deduplication key means an earlier attempt already settled, so the
/// withdrawal is complete and a rollback would pay the amount a second
/// time; every other semantic rejection is definite and safe to unwind.
pub fn classify_ledger_error(e: LedgerTransferError) -> (r: FailureClass)
    ensures
        r == FailureClass::Uncertain <==> e == LedgerTransferError::TemporarilyUnavailable,
        r == FailureClass::AlreadyCompleted <==> e == LedgerTransferError::Duplicate,
{
    match e {
        LedgerTransferError::TemporarilyUnavailable => FailureClass::Uncertain,
        LedgerTransferError::Duplicate => FailureClass::AlreadyCompleted,
        _ => FailureClass::Definite,
    }
}

/// Whether a host-level rejection is safe to roll back. `SysTransient`
/// and `Unknown` may have delivered the call; the rest are definite.
pub fn classify_rejection(code: RejectionCode) -> (r: FailureClass)
    ensures
        r == FailureClass::Uncertain <==> (code == RejectionCode::SysTransient || code
            == RejectionCode::Unknown),
        r != FailureClass::AlreadyCompleted,
{
    match code {
        RejectionCode::SysTransient => FailureClass::Uncertain,
        RejectionCode::Unknown => FailureClass::Uncertain,
        _ => FailureClass::Definite,
    }
}

/// One record's obligation never exceeds the sum of all obligations.
pub proof fn lemma_obligation_at_le_sum(s: Seq<PendingEntry>, i: int)
    requires
        0 <= i < s.len(),
    ensures
        s[i].withdrawal.withdrawal_type.spec_obligation() <= sum_pending(s),
    decreases s.len(),
{
    if i == s.len() - 1 {
        lemma_sum_pending_nonneg(s.drop_last());
    } else {
        assert(s.drop_last()[i] == s[i]);
        lemma_obligation_at_le_sum(s.drop_last(), i);
    }
}

pub proof fn lemma_sum_pending_take_le(s: Seq<PendingEntry>, i: int)
    requires
        0 <= i <= s.len(),
    ensures
        sum_pending(s.take(i)) <= sum_pending(s),
    decreases s.len() - i,
{
    if i == s.len() {
        assert(s.take(i) =~= s);
    } else {
        assert(s.take(i + 1).drop_last() =~= s.take(i));
        assert(s.take(i + 1).last() == s[i]);
        lemma_sum_pending_take_le(s, i + 1);
    }
}

} // verus!
