use vstd::prelude::*;

use crate::errors::ErrorKind;

verus! {

pub open spec fn in_id_set(s: Seq<u64>, p: u64) -> bool {
    exists|i: int| 0 <= i < s.len() && s[i] == p
}

pub open spec fn unique_ids(s: Seq<u64>) -> bool {
    forall|i: int, j: int| 0 <= i < j < s.len() ==> s[i] != s[j]
}

proof fn lemma_id_push(s: Seq<u64>, p: u64)
    requires
        unique_ids(s),
        !in_id_set(s, p),
    ensures
        unique_ids(s.push(p)),
        in_id_set(s.push(p), p),
        forall|q: u64| q != p ==> in_id_set(s.push(p), q) == in_id_set(s, q),
{
    let s2 = s.push(p);
    let n = s.len() as int;
    assert(s2[n] == p);
    assert forall|i: int, j: int| 0 <= i < j < s2.len() implies s2[i] != s2[j] by {
        if j < n {
            assert(s2[i] == s[i] && s2[j] == s[j]);
        } else {
            assert(s2[i] == s[i] && s2[j] == p);
            assert(in_id_set(s, s[i]));
        }
    }
    assert forall|q: u64| q != p implies in_id_set(s2, q) == in_id_set(s, q) by {
        if in_id_set(s, q) {
            let k = choose|k: int| 0 <= k < s.len() && s[k] == q;
            assert(s2[k] == q);
        }
        if in_id_set(s2, q) {
            let k = choose|k: int| 0 <= k < s2.len() && s2[k] == q;
            assert(k != n);
            assert(s[k] == q);
        }
    }
}

proof fn lemma_id_swap_remove(s: Seq<u64>, i: int)
    requires
        unique_ids(s),
        0 <= i < s.len(),
    ensures
        unique_ids(s.update(i, s.last()).drop_last()),
        !in_id_set(s.update(i, s.last()).drop_last(), s[i]),
        forall|q: u64|
            q != s[i] ==> in_id_set(s.update(i, s.last()).drop_last(), q) == in_id_set(s, q),
{
    let p = s[i];
    let s2 = s.update(i, s.last()).drop_last();
    let n = s.len() as int;
    assert forall|k: int, l: int| 0 <= k < l < s2.len() implies s2[k] != s2[l] by {
        if k == i {
            assert(s2[k] == s[n - 1]);
            assert(s2[l] == s[l]);
        } else if l == i {
            assert(s2[l] == s[n - 1]);
            assert(s2[k] == s[k]);
        } else {
            assert(s2[k] == s[k] && s2[l] == s[l]);
        }
    }
    assert forall|k: int| 0 <= k < s2.len() implies s2[k] != p by {
        if k == i {
            assert(s2[k] == s[n - 1]);
        } else {
            assert(s2[k] == s[k]);
        }
    }
    assert forall|q: u64| q != p implies in_id_set(s2, q) == in_id_set(s, q) by {
        if in_id_set(s, q) {
            let k = choose|k: int| 0 <= k < s.len() && s[k] == q;
            if k == n - 1 {
                if i < n - 1 {
                    assert(s2[i] == q);
                } else {
                    assert(false);
                }
            } else if k == i {
                assert(false);
            } else {
                assert(s2[k] == q);
            }
        }
        if in_id_set(s2, q) {
            let k = choose|k: int| 0 <= k < s2.len() && s2[k] == q;
            if k == i {
                assert(s[n - 1] == q);
            } else {
                assert(s[k] == q);
            }
        }
    }
}

/// The per-caller operation guard: the set of principals that are inside
/// a mutating operation right now, possibly suspended at an external call.
///
/// A second operation of a principal already in the set is refused, which
/// is what turns the host's per-message scheduling into per-caller
/// serializability across suspension points. There is no scope token to
/// release the guard implicitly; every exit path of the engine calls
/// `release` explicitly.
pub struct OperationGuard {
    pub active: Vec<u64>,
}

impl OperationGuard {
    /// Whether `p` currently holds the guard.
    pub open spec fn holds(self, p: u64) -> bool {
        in_id_set(self.active@, p)
    }

    pub open spec fn wf(self) -> bool {
        unique_ids(self.active@)
    }

    /// The empty guard set: rebuilt empty on every boot.
    pub fn new() -> (r: OperationGuard)
        ensures
            r.wf(),
            r.active@.len() == 0,
            forall|q: u64| !r.holds(q),
    {
        OperationGuard { active: Vec::new() }
    }

    fn find_index(&self, p: u64) -> (r: Option<usize>)
        ensures
            match r {
                Some(i) => i < self.active@.len() && self.active@[i as int] == p,
                None => !in_id_set(self.active@, p),
            },
    {
        let n = self.active.len();
        let mut i: usize = 0;
        while i < n
            invariant
                n == self.active@.len(),
                i <= n,
                forall|j: int| 0 <= j < i ==> self.active@[j] != p,
            decreases n - i,
        {
            if self.active[i] == p {
                return Some(i);
            }
            i += 1;
        }
        None
    }

    /// Whether `p` currently holds the guard.
    pub fn is_held(&self, p: u64) -> (r: bool)
        ensures
            r == self.holds(p),
    {
        match self.find_index(p) {
            Some(_) => true,
            None => false,
        }
    }

    /// Enter the guard. Fails, changing nothing, exactly when the caller
    /// already has an operation in flight.
    pub fn acquire(&mut self, p: u64) -> (r: Result<(), ErrorKind>)
        requires
            old(self).wf(),
        ensures
            final(self).wf(),
            match r {
                Ok(()) => {
                    &&& !old(self).holds(p)
                    &&& final(self).holds(p)
                    &&& forall|q: u64| q != p ==> final(self).holds(q) == old(self).holds(q)
                },
                Err(e) => {
                    &&& *final(self) == *old(self)
                    &&& e == ErrorKind::ConcurrentOperation
                    &&& old(self).holds(p)
                },
            },
    {
        match self.find_index(p) {
            Some(_) => Err(ErrorKind::ConcurrentOperation),
            None => {
                proof {
                    lemma_id_push(self.active@, p);
                }
                self.active.push(p);
                Ok(())
            },
        }
    }

    /// Leave the guard. A release for a principal that does not hold it
    /// changes nothing.
    pub fn release(&mut self, p: u64)
        requires
            old(self).wf(),
        ensures
            final(self).wf(),
            !final(self).holds(p),
            forall|q: u64| q != p ==> final(self).holds(q) == old(self).holds(q),
    {
        match self.find_index(p) {
            Some(i) => {
                proof {
                    lemma_id_swap_remove(self.active@, i as int);
                }
                self.active.swap_remove(i);
            },
            None => {},
        }
    }
}

} // verus!
