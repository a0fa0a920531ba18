//! Per-token balance table: which account holds how many units of one token.
//!
//! The table is an association list with two invariants: account keys are
//! unique, and every stored unit count is positive (a holding that reaches
//! zero is removed, never retained).

use crate::types::AccountId;
use vstd::prelude::*;

verus! {

/// One row of a token's balance table.
pub struct Holding {
    pub account: AccountId,
    pub units: u64,
}

impl Holding {
    /// The mathematical key of this row: the account's identity bytes.
    pub open spec fn key(self) -> Seq<u8> {
        self.account@
    }
}

impl Clone for Holding {
    fn clone(&self) -> (r: Holding)
        ensures
            r.key() == self.key() && r.units == self.units,
    {
        Holding { account: self.account.clone(), units: self.units }
    }
}

/// Deep value equality of two rows.
pub open spec fn holding_eq(a: Holding, b: Holding) -> bool {
    a.key() == b.key() && a.units == b.units
}

/// Deep value equality of two row sequences.
pub open spec fn holdings_eq(a: Seq<Holding>, b: Seq<Holding>) -> bool {
    a.len() == b.len() && forall|i: int| 0 <= i < a.len() ==> holding_eq(#[trigger] a[i], b[i])
}

/// Sum of the unit counts of all rows.
pub open spec fn sum_units(s: Seq<Holding>) -> int
    decreases s.len(),
{
    if s.len() == 0 {
        0
    } else {
        sum_units(s.drop_last()) + s.last().units
    }
}

pub proof fn lemma_sum_nonneg(s: Seq<Holding>)
    ensures
        sum_units(s) >= 0,
    decreases s.len(),
{
    if s.len() > 0 {
        lemma_sum_nonneg(s.drop_last());
    }
}

pub proof fn lemma_sum_push(s: Seq<Holding>, h: Holding)
    ensures
        sum_units(s.push(h)) == sum_units(s) + h.units,
{
    assert(s.push(h).drop_last() =~= s);
    assert(s.push(h).last() == h);
}

pub proof fn lemma_sum_update(s: Seq<Holding>, i: int, h: Holding)
    requires
        0 <= i < s.len(),
    ensures
        sum_units(s.update(i, h)) == sum_units(s) - s[i].units + h.units,
    decreases s.len(),
{
    if i == s.len() - 1 {
        assert(s.update(i, h).drop_last() =~= s.drop_last());
        assert(s.update(i, h).last() == h);
    } else {
        assert(s.update(i, h).drop_last() =~= s.drop_last().update(i, h));
        assert(s.update(i, h).last() == s.last());
        lemma_sum_update(s.drop_last(), i, h);
    }
}

pub proof fn lemma_sum_remove(s: Seq<Holding>, i: int)
    requires
        0 <= i < s.len(),
    ensures
        sum_units(s.remove(i)) == sum_units(s) - s[i].units,
    decreases s.len(),
{
    if i == s.len() - 1 {
        assert(s.remove(i) =~= s.drop_last());
    } else {
        assert(s.remove(i).drop_last() =~= s.drop_last().remove(i));
        assert(s.remove(i).last() == s.last());
        lemma_sum_remove(s.drop_last(), i);
    }
}

/// Each single row's units are bounded by the total.
pub proof fn lemma_sum_one(s: Seq<Holding>, i: int)
    requires
        0 <= i < s.len(),
    ensures
        s[i].units <= sum_units(s),
{
    lemma_sum_remove(s, i);
    lemma_sum_nonneg(s.remove(i));
}

/// Two distinct rows' units are jointly bounded by the total.
pub proof fn lemma_sum_two(s: Seq<Holding>, i: int, j: int)
    requires
        0 <= i < s.len(),
        0 <= j < s.len(),
        i != j,
    ensures
        s[i].units + s[j].units <= sum_units(s),
{
    lemma_sum_remove(s, i);
    let s2 = s.remove(i);
    let j2 = if j < i {
        j
    } else {
        j - 1
    };
    assert(s2[j2] == s[j]);
    lemma_sum_one(s2, j2);
}

/// The balance table of one token.
pub struct HolderTable {
    pub entries: Vec<Holding>,
}

impl HolderTable {
    /// Well-formedness: unique account keys, positive unit counts.
    pub open spec fn wf(self) -> bool {
        &&& forall|i: int, j: int|
            0 <= i < j < self.entries@.len() ==> (#[trigger] self.entries@[i]).key() != (
            #[trigger] self.entries@[j]).key()
        &&& forall|i: int| 0 <= i < self.entries@.len() ==> (#[trigger] self.entries@[i]).units > 0
    }

    pub open spec fn has(self, a: Seq<u8>) -> bool {
        exists|i: int| 0 <= i < self.entries@.len() && (#[trigger] self.entries@[i]).key() == a
    }

    pub open spec fn idx_of(self, a: Seq<u8>) -> int {
        choose|i: int| 0 <= i < self.entries@.len() && (#[trigger] self.entries@[i]).key() == a
    }

    /// Units held by account `a`; zero if the account holds no row.
    pub open spec fn units_of(self, a: Seq<u8>) -> int {
        if self.has(a) {
            self.entries@[self.idx_of(a)].units as int
        } else {
            0
        }
    }

    /// Sum of all holdings in the table.
    pub open spec fn total(self) -> int {
        sum_units(self.entries@)
    }

    /// Number of distinct accounts holding units.
    pub open spec fn holder_count(self) -> int {
        self.entries@.len() as int
    }

    /// In a well-formed table, any row with key `a` is the row of `a`.
    pub proof fn lemma_units_at(self, j: int)
        requires
            self.wf(),
            0 <= j < self.entries@.len(),
        ensures
            self.has(self.entries@[j].key()),
            self.idx_of(self.entries@[j].key()) == j,
            self.units_of(self.entries@[j].key()) == self.entries@[j].units,
    {
        let a = self.entries@[j].key();
        assert(self.has(a));
        let i = self.idx_of(a);
        if i != j {
            if i < j {
                assert(self.entries@[i].key() != self.entries@[j].key());
            } else {
                assert(self.entries@[j].key() != self.entries@[i].key());
            }
            assert(false);
        }
    }

    /// A present account's units are positive and bounded by the total.
    pub proof fn lemma_units_bounds(self, a: Seq<u8>)
        requires
            self.wf(),
        ensures
            0 <= self.units_of(a) <= self.total(),
            self.has(a) ==> self.units_of(a) > 0,
    {
        lemma_sum_nonneg(self.entries@);
        if self.has(a) {
            let i = self.idx_of(a);
            lemma_sum_one(self.entries@, i);
        }
    }

    /// Two distinct accounts' units are jointly bounded by the total.
    pub proof fn lemma_pair_bounds(self, a: Seq<u8>, b: Seq<u8>)
        requires
            self.wf(),
            a != b,
        ensures
            self.units_of(a) + self.units_of(b) <= self.total(),
    {
        self.lemma_units_bounds(a);
        self.lemma_units_bounds(b);
        if self.has(a) && self.has(b) {
            let i = self.idx_of(a);
            let j = self.idx_of(b);
            assert(self.entries@[i].key() == a);
            assert(self.entries@[j].key() == b);
            lemma_sum_two(self.entries@, i, j);
        }
    }

    /// An empty table.
    pub fn new() -> (r: HolderTable)
        ensures
            r.wf(),
            r.entries@.len() == 0,
            r.total() == 0,
            r.holder_count() == 0,
            forall|b: Seq<u8>| !r.has(b),
    {
        HolderTable { entries: Vec::new() }
    }

    /// Index of the row of `account`, if any.
    fn find(&self, account: &AccountId) -> (r: Option<usize>)
        ensures
            match r {
                Some(i) => i < self.entries@.len() && self.entries@[i as int].key() == account@,
                None => !self.has(account@),
            },
    {
        let mut i: usize = 0;
        while i < self.entries.len()
            invariant
                i <= self.entries@.len(),
                forall|j: int| 0 <= j < i ==> (#[trigger] self.entries@[j]).key() != account@,
            decreases self.entries@.len() - i,
        {
            if self.entries[i].account == *account {
                return Some(i);
            }
            i = i + 1;
        }
        None
    }

    /// Units held by `account` (zero when absent).
    pub fn units(&self, account: &AccountId) -> (r: u64)
        requires
            self.wf(),
        ensures
            r as int == self.units_of(account@),
    {
        match self.find(account) {
            Some(i) => {
                proof {
                    self.lemma_units_at(i as int);
                }
                self.entries[i].units
            },
            None => 0,
        }
    }

    /// Whether `account` holds any units.
    pub fn contains(&self, account: &AccountId) -> (r: bool)
        ensures
            r == self.has(account@),
    {
        self.find(account).is_some()
    }

    /// Adds `n` units to `account`, inserting a row when needed.  Returns
    /// whether a new row was created.
    pub fn credit(&mut self, account: &AccountId, n: u64) -> (created: bool)
        requires
            old(self).wf(),
            old(self).units_of(account@) + n <= u64::MAX,
        ensures
            final(self).wf(),
            final(self).units_of(account@) == old(self).units_of(account@) + n,
            forall|b: Seq<u8>|
                b != account@ ==> final(self).units_of(b) == old(self).units_of(b) && final(self).has(b) == old(self).has(b),
            final(self).has(account@) == (old(self).has(account@) || n > 0),
            final(self).total() == old(self).total() + n,
            created == (!old(self).has(account@) && n > 0),
            final(self).holder_count() == old(self).holder_count() + (if created {
                1int
            } else {
                0int
            }),
    {
        match self.find(account) {
            Some(i) => {
                proof {
                    self.lemma_units_at(i as int);
                }
                let u = self.entries[i].units;
                self.entries.set(i, Holding { account: account.clone(), units: u + n });
                proof {
                    lemma_sum_update(old(self).entries@, i as int, self.entries@[i as int]);
                    self.lemma_credit_update_post(*old(self), i as int, account@, n);
                }
                false
            },
            None => {
                if n == 0 {
                    false
                } else {
                    self.entries.push(Holding { account: account.clone(), units: n });
                    proof {
                        lemma_sum_push(old(self).entries@, self.entries@.last());
                        self.lemma_credit_push_post(*old(self), account@, n);
                    }
                    true
                }
            },
        }
    }

    /// Helper for `credit` when an existing row at `i` was overwritten.
    proof fn lemma_credit_update_post(self, pre: HolderTable, i: int, a: Seq<u8>, n: u64)
        requires
            pre.wf(),
            0 <= i < pre.entries@.len(),
            pre.entries@[i].key() == a,
            pre.units_of(a) + n <= u64::MAX,
            self.entries@ == pre.entries@.update(
                i,
                Holding {
                    account: self.entries@[i].account,
                    units: (pre.entries@[i].units + n) as u64,
                },
            ),
            self.entries@[i].key() == a,
        ensures
            self.wf(),
            self.units_of(a) == pre.units_of(a) + n,
            forall|b: Seq<u8>|
                b != a ==> self.units_of(b) == pre.units_of(b) && self.has(b) == pre.has(b),
            self.has(a),
    {
        pre.lemma_units_at(i);
        assert forall|p: int, q: int|
            0 <= p < q < self.entries@.len() implies (#[trigger] self.entries@[p]).key() != (
        #[trigger] self.entries@[q]).key() by {
            assert(pre.entries@[p].key() == self.entries@[p].key());
            assert(pre.entries@[q].key() == self.entries@[q].key());
        }
        self.lemma_units_at(i);
        assert forall|b: Seq<u8>| b != a implies self.units_of(b) == pre.units_of(b) && self.has(b)
            == pre.has(b) by {
            if self.has(b) {
                let j = self.idx_of(b);
                assert(j != i);
                assert(pre.entries@[j].key() == b);
                pre.lemma_units_at(j);
                self.lemma_units_at(j);
            } else if pre.has(b) {
                let j = pre.idx_of(b);
                assert(j != i);
                assert(self.entries@[j].key() == b);
                assert(self.has(b));
            }
        }
    }

    /// Helper for `credit` when a fresh row for `a` was pushed.
    proof fn lemma_credit_push_post(self, pre: HolderTable, a: Seq<u8>, n: u64)
        requires
            pre.wf(),
            !pre.has(a),
            n > 0,
            self.entries@ == pre.entries@.push(
                Holding { account: self.entries@.last().account, units: n },
            ),
            self.entries@.last().key() == a,
        ensures
            self.wf(),
            self.units_of(a) == pre.units_of(a) + n,
            forall|b: Seq<u8>|
                b != a ==> self.units_of(b) == pre.units_of(b) && self.has(b) == pre.has(b),
            self.has(a),
    {
        let last = self.entries@.len() - 1;
        assert forall|p: int, q: int|
            0 <= p < q < self.entries@.len() implies (#[trigger] self.entries@[p]).key() != (
        #[trigger] self.entries@[q]).key() by {
            if q == last {
                assert(self.entries@[p] == pre.entries@[p]);
                if self.entries@[p].key() == a {
                    assert(pre.has(a));
                }
            } else {
                assert(pre.entries@[p].key() == self.entries@[p].key());
                assert(pre.entries@[q].key() == self.entries@[q].key());
            }
        }
        self.lemma_units_at(last);
        assert(!pre.has(a) ==> pre.units_of(a) == 0);
        assert forall|b: Seq<u8>| b != a implies self.units_of(b) == pre.units_of(b) && self.has(b)
            == pre.has(b) by {
            if self.has(b) {
                let j = self.idx_of(b);
                assert(j != last);
                assert(pre.entries@[j].key() == b);
                pre.lemma_units_at(j);
                self.lemma_units_at(j);
            } else if pre.has(b) {
                let j = pre.idx_of(b);
                assert(self.entries@[j].key() == b);
            }
        }
    }

    /// Removes `n` units from `account`'s row, deleting the row when it
    /// reaches zero.  Returns whether the row was deleted.
    pub fn debit(&mut self, account: &AccountId, n: u64) -> (removed: bool)
        requires
            old(self).wf(),
            old(self).has(account@),
            n as int <= old(self).units_of(account@),
        ensures
            final(self).wf(),
            final(self).units_of(account@) == old(self).units_of(account@) - n,
            forall|b: Seq<u8>|
                b != account@ ==> final(self).units_of(b) == old(self).units_of(b) && final(self).has(b) == old(self).has(b),
            final(self).has(account@) == (old(self).units_of(account@) > n),
            final(self).total() == old(self).total() - n,
            removed == (old(self).units_of(account@) == n),
            final(self).holder_count() == old(self).holder_count() - (if removed {
                1int
            } else {
                0int
            }),
    {
        let idx = match self.find(account) {
            Some(i) => i,
            None => {
                proof {
                    assert(false);
                }
                0
            },
        };
        proof {
            self.lemma_units_at(idx as int);
        }
        let u = self.entries[idx].units;
        if u == n {
            self.entries.remove(idx);
            proof {
                lemma_sum_remove(old(self).entries@, idx as int);
                self.lemma_debit_remove_post(*old(self), idx as int, account@);
            }
            true
        } else {
            self.entries.set(idx, Holding { account: account.clone(), units: u - n });
            proof {
                lemma_sum_update(old(self).entries@, idx as int, self.entries@[idx as int]);
                old(self).lemma_units_at(idx as int);
                self.lemma_debit_update_post(*old(self), idx as int, account@, n);
            }
            false
        }
    }

    /// Helper for `debit` when the row at `i` was deleted.
    proof fn lemma_debit_remove_post(self, pre: HolderTable, i: int, a: Seq<u8>)
        requires
            pre.wf(),
            0 <= i < pre.entries@.len(),
            pre.entries@[i].key() == a,
            self.entries@ == pre.entries@.remove(i),
        ensures
            self.wf(),
            !self.has(a),
            self.units_of(a) == 0,
            forall|b: Seq<u8>|
                b != a ==> self.units_of(b) == pre.units_of(b) && self.has(b) == pre.has(b),
    {
        pre.lemma_units_at(i);
        assert forall|p: int, q: int|
            0 <= p < q < self.entries@.len() implies (#[trigger] self.entries@[p]).key() != (
        #[trigger] self.entries@[q]).key() by {
            let p0 = if p < i {
                p
            } else {
                p + 1
            };
            let q0 = if q < i {
                q
            } else {
                q + 1
            };
            assert(self.entries@[p] == pre.entries@[p0]);
            assert(self.entries@[q] == pre.entries@[q0]);
        }
        assert forall|j: int| 0 <= j < self.entries@.len() implies (#[trigger] self.entries@[j]).key()
            != a by {
            let j0 = if j < i {
                j
            } else {
                j + 1
            };
            assert(self.entries@[j] == pre.entries@[j0]);
            if pre.entries@[j0].key() == a {
                pre.lemma_units_at(j0);
            }
        }
        assert forall|b: Seq<u8>| b != a implies self.units_of(b) == pre.units_of(b) && self.has(b)
            == pre.has(b) by {
            if self.has(b) {
                let j = self.idx_of(b);
                let j0 = if j < i {
                    j
                } else {
                    j + 1
                };
                assert(self.entries@[j] == pre.entries@[j0]);
                pre.lemma_units_at(j0);
                self.lemma_units_at(j);
            } else if pre.has(b) {
                let j0 = pre.idx_of(b);
                assert(pre.entries@[j0].key() == b);
                assert(j0 != i);
                let j = if j0 < i {
                    j0
                } else {
                    j0 - 1
                };
                assert(self.entries@[j] == pre.entries@[j0]);
                assert(self.has(b));
            }
        }
    }

    /// Helper for `debit` when the row at `i` kept a positive remainder.
    proof fn lemma_debit_update_post(self, pre: HolderTable, i: int, a: Seq<u8>, n: u64)
        requires
            pre.wf(),
            0 <= i < pre.entries@.len(),
            pre.entries@[i].key() == a,
            n < pre.entries@[i].units,
            self.entries@ == pre.entries@.update(
                i,
                Holding {
                    account: self.entries@[i].account,
                    units: (pre.entries@[i].units - n) as u64,
                },
            ),
            self.entries@[i].key() == a,
        ensures
            self.wf(),
            self.has(a),
            self.units_of(a) == pre.units_of(a) - n,
            forall|b: Seq<u8>|
                b != a ==> self.units_of(b) == pre.units_of(b) && self.has(b) == pre.has(b),
    {
        pre.lemma_units_at(i);
        assert forall|p: int, q: int|
            0 <= p < q < self.entries@.len() implies (#[trigger] self.entries@[p]).key() != (
        #[trigger] self.entries@[q]).key() by {
            assert(pre.entries@[p].key() == self.entries@[p].key());
            assert(pre.entries@[q].key() == self.entries@[q].key());
        }
        self.lemma_units_at(i);
        assert forall|b: Seq<u8>| b != a implies self.units_of(b) == pre.units_of(b) && self.has(b)
            == pre.has(b) by {
            if self.has(b) {
                let j = self.idx_of(b);
                assert(j != i);
                assert(pre.entries@[j].key() == b);
                pre.lemma_units_at(j);
                self.lemma_units_at(j);
            } else if pre.has(b) {
                let j = pre.idx_of(b);
                assert(j != i);
                assert(self.entries@[j].key() == b);
            }
        }
    }

    /// Deletes every row.
    pub fn clear_all(&mut self)
        ensures
            final(self).wf(),
            final(self).entries@.len() == 0,
            final(self).total() == 0,
            final(self).holder_count() == 0,
            forall|b: Seq<u8>| !final(self).has(b),
    {
        self.entries.clear();
    }

    /// A cloned copy of every row, for read-only snapshots.
    pub fn snapshot(&self) -> (r: Vec<Holding>)
        ensures
            holdings_eq(r@, self.entries@),
    {
        let mut r: Vec<Holding> = Vec::new();
        let mut i: usize = 0;
        while i < self.entries.len()
            invariant
                i <= self.entries@.len(),
                r@.len() == i,
                forall|j: int| 0 <= j < i ==> holding_eq(#[trigger] r@[j], self.entries@[j]),
            decreases self.entries@.len() - i,
        {
            r.push(self.entries[i].clone());
            i = i + 1;
        }
        r
    }
}

impl Clone for HolderTable {
    fn clone(&self) -> (r: HolderTable)
        ensures
            holdings_eq(r.entries@, self.entries@),
    {
        HolderTable { entries: self.snapshot() }
    }
}

} // verus!
