use vstd::prelude::*;

use crate::constants::MAX_ERROR_LEN;

verus! {

/// The kinds of ledger-affecting events the audit log records.
#[derive(Clone, Copy, Debug, PartialEq, Eq, Structural)]
pub enum AuditEventType {
    WithdrawalInitiated,
    WithdrawalCompleted,
    WithdrawalFailed,
    WithdrawalExpired,
    BalanceRestored,
    LpRestored,
    SystemError,
}

/// One audit record. `details` is truncated before storage so that every
/// record has a bounded serialized size.
#[derive(Debug)]
pub struct AuditEntry {
    pub timestamp: u64,
    pub event_type: AuditEventType,
    pub user: u64,
    pub amount: u64,
    pub details: String,
}

/// Two records with the same content.
pub open spec fn entry_matches(a: AuditEntry, b: AuditEntry) -> bool {
    &&& a.timestamp == b.timestamp
    &&& a.event_type == b.event_type
    &&& a.user == b.user
    &&& a.amount == b.amount
    &&& a.details@ == b.details@
}

/// What sanitizing leaves of an error text: at most `MAX_ERROR_LEN`
/// characters, a prefix of the original.
pub open spec fn spec_sanitized(s: Seq<char>) -> Seq<char> {
    if s.len() <= MAX_ERROR_LEN {
        s
    } else {
        s.subrange(0, MAX_ERROR_LEN as int)
    }
}

/// Cut an error text down to the bounded length every stored record keeps.
pub fn sanitize_error(s: &str) -> (r: String)
    ensures
        r@ == spec_sanitized(s@),
        r@.len() <= MAX_ERROR_LEN,
{
    let n = s.unicode_len();
    if n <= MAX_ERROR_LEN {
        s.to_owned()
    } else {
        let cut = s.substring_char(0, MAX_ERROR_LEN);
        cut.to_owned()
    }
}

/// The append-only audit log: the one durable history of ledger-affecting
/// events.
pub struct AuditLog {
    pub entries: Vec<AuditEntry>,
}

impl AuditLog {
    pub fn new() -> (r: AuditLog)
        ensures
            r.entries@.len() == 0,
    {
        AuditLog { entries: Vec::new() }
    }

    /// How many records the log holds.
    pub fn len(&self) -> (r: usize)
        ensures
            r == self.entries@.len(),
    {
        self.entries.len()
    }

    /// Append one record; `details` is sanitized before storage, and no
    /// existing record changes.
    pub fn append(
        &mut self,
        event_type: AuditEventType,
        user: u64,
        amount: u64,
        details: &str,
        now: u64,
    )
        ensures
            final(self).entries@.len() == old(self).entries@.len() + 1,
            forall|i: int|
                0 <= i < old(self).entries@.len() ==> final(self).entries@[i] == old(
                    self,
                ).entries@[i],
            final(self).entries@.last().timestamp == now,
            final(self).entries@.last().event_type == event_type,
            final(self).entries@.last().user == user,
            final(self).entries@.last().amount == amount,
            final(self).entries@.last().details@ == spec_sanitized(details@),
    {
        let entry = AuditEntry {
            timestamp: now,
            event_type,
            user,
            amount,
            details: sanitize_error(details),
        };
        self.entries.push(entry);
    }

    /// A page of the log: up to `limit` records starting at `start`.
    pub fn get_audit_log(&self, start: usize, limit: usize) -> (r: Vec<AuditEntry>)
        ensures
            r@.len() == (if start <= self.entries@.len() {
                vstd::math::min((self.entries@.len() - start) as int, limit as int)
            } else {
                0int
            }),
            forall|k: int|
                0 <= k < r@.len() ==> entry_matches(r@[k], self.entries@[start + k]),
    {
        let n = self.entries.len();
        let mut out: Vec<AuditEntry> = Vec::new();
        if start > n {
            return out;
        }
        let mut i: usize = start;
        while i < n && i - start < limit
            invariant
                n == self.entries@.len(),
                start <= i <= n,
                i - start <= limit,
                out@.len() == i - start,
                i - start < limit || i == n || out@.len() == limit,
                forall|k: int|
                    0 <= k < out@.len() ==> entry_matches(out@[k], self.entries@[start + k]),
            decreases n - i,
        {
            let e = &self.entries[i];
            let copied = AuditEntry {
                timestamp: e.timestamp,
                event_type: e.event_type,
                user: e.user,
                amount: e.amount,
                details: e.details.clone(),
            };
            out.push(copied);
            i += 1;
        }
        out
    }
}

} // verus!
