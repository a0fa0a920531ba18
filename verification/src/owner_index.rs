//! Reverse owner index: account identity to the set of token identifiers the
//! account holds units of.
//!
//! The index is derived from the per-token balance tables and must change in
//! the same atomic step as any balance mutation.  Invariants: account keys are
//! unique, each entry's token list has no duplicates, and no entry is empty
//! (an account whose last holding goes away leaves the index).

use crate::types::AccountId;
use vstd::prelude::*;

verus! {

/// One entry of the index: an account and the tokens it holds units of.
pub struct OwnerEntry {
    pub account: AccountId,
    pub token_ids: Vec<u64>,
}

impl OwnerEntry {
    /// The mathematical key of this entry: the account's identity bytes.
    pub open spec fn key(self) -> Seq<u8> {
        self.account@
    }
}

/// The reverse owner index.
pub struct OwnerIndex {
    pub entries: Vec<OwnerEntry>,
}

impl OwnerIndex {
    /// Well-formedness: unique accounts, duplicate-free and non-empty lists.
    pub open spec fn wf(self) -> bool {
        &&& forall|i: int, j: int|
            0 <= i < j < self.entries@.len() ==> (#[trigger] self.entries@[i]).key() != (
            #[trigger] self.entries@[j]).key()
        &&& forall|i: int|
            0 <= i < self.entries@.len() ==> (#[trigger] self.entries@[i]).token_ids@.len() > 0
        &&& forall|i: int, p: int, q: int|
            #![trigger self.entries@[i].token_ids@[p], self.entries@[i].token_ids@[q]]
            0 <= i < self.entries@.len() && 0 <= p < q < self.entries@[i].token_ids@.len()
                ==> self.entries@[i].token_ids@[p] != self.entries@[i].token_ids@[q]
    }

    pub open spec fn has_account(self, a: Seq<u8>) -> bool {
        exists|i: int| 0 <= i < self.entries@.len() && (#[trigger] self.entries@[i]).key() == a
    }

    pub open spec fn acct_idx(self, a: Seq<u8>) -> int {
        choose|i: int| 0 <= i < self.entries@.len() && (#[trigger] self.entries@[i]).key() == a
    }

    /// The token identifiers held by `a`; empty if `a` is not indexed.
    pub open spec fn tokens_of(self, a: Seq<u8>) -> Seq<u64> {
        if self.has_account(a) {
            self.entries@[self.acct_idx(a)].token_ids@
        } else {
            Seq::empty()
        }
    }

    /// Whether the pair (account, token) stands in the index.
    pub open spec fn has_pair(self, a: Seq<u8>, t: u64) -> bool {
        self.has_account(a) && self.tokens_of(a).contains(t)
    }

    /// Number of indexed accounts.
    pub open spec fn count(self) -> int {
        self.entries@.len() as int
    }

    /// In a well-formed index, any entry with key `a` is the entry of `a`.
    pub proof fn lemma_at(self, j: int)
        requires
            self.wf(),
            0 <= j < self.entries@.len(),
        ensures
            self.has_account(self.entries@[j].key()),
            self.acct_idx(self.entries@[j].key()) == j,
            self.tokens_of(self.entries@[j].key()) == self.entries@[j].token_ids@,
    {
        let a = self.entries@[j].key();
        assert(self.has_account(a));
        let i = self.acct_idx(a);
        if i != j {
            if i < j {
                assert(self.entries@[i].key() != self.entries@[j].key());
            } else {
                assert(self.entries@[j].key() != self.entries@[i].key());
            }
            assert(false);
        }
    }

    /// An empty index.
    pub fn new() -> (r: OwnerIndex)
        ensures
            r.wf(),
            r.count() == 0,
            forall|a: Seq<u8>| !r.has_account(a),
            forall|a: Seq<u8>, t: u64| !r.has_pair(a, t),
    {
        OwnerIndex { entries: Vec::new() }
    }

    /// Index of the entry of `account`, if any.
    fn find(&self, account: &AccountId) -> (r: Option<usize>)
        ensures
            match r {
                Some(i) => i < self.entries@.len() && self.entries@[i as int].key() == account@,
                None => !self.has_account(account@),
            },
    {
        let mut i: usize = 0;
        while i < self.entries.len()
            invariant
                i <= self.entries@.len(),
                forall|j: int| 0 <= j < i ==> (#[trigger] self.entries@[j]).key() != account@,
            decreases self.entries@.len() - i,
        {
            if self.entries[i].account == *account {
                return Some(i);
            }
            i = i + 1;
        }
        None
    }

    /// Whether `account` is indexed at all.
    pub fn contains_account(&self, account: &AccountId) -> (r: bool)
        ensures
            r == self.has_account(account@),
    {
        self.find(account).is_some()
    }

    /// How many tokens `account` holds units of, if it is indexed.
    pub fn count_of(&self, account: &AccountId) -> (r: Option<usize>)
        requires
            self.wf(),
        ensures
            match r {
                Some(n) => self.has_account(account@) && n == self.tokens_of(account@).len(),
                None => !self.has_account(account@),
            },
    {
        match self.find(account) {
            Some(i) => {
                proof {
                    self.lemma_at(i as int);
                }
                Some(self.entries[i].token_ids.len())
            },
            None => None,
        }
    }

    /// A cloned copy of `account`'s token list, if it is indexed.
    pub fn ids_of(&self, account: &AccountId) -> (r: Option<Vec<u64>>)
        requires
            self.wf(),
        ensures
            match r {
                Some(ids) => self.has_account(account@) && ids@ == self.tokens_of(account@),
                None => !self.has_account(account@),
            },
    {
        match self.find(account) {
            Some(i) => {
                proof {
                    self.lemma_at(i as int);
                }
                let ids = self.entries[i].token_ids.clone();
                proof {
                    assert forall|j: int|
                        0 <= j < self.entries@[i as int].token_ids@.len() implies ids@[j]
                        == self.entries@[i as int].token_ids@[j] by {
                        assert(cloned::<u64>(self.entries@[i as int].token_ids[j], ids[j]));
                    }
                    assert(ids@ =~= self.entries@[i as int].token_ids@);
                }
                Some(ids)
            },
            None => None,
        }
    }

    /// Records that `account` now holds units of token `t`.  Returns whether
    /// the account is newly indexed.
    pub fn add(&mut self, account: &AccountId, t: u64) -> (added: bool)
        requires
            old(self).wf(),
            !old(self).has_pair(account@, t),
        ensures
            final(self).wf(),
            final(self).has_pair(account@, t),
            forall|b: Seq<u8>, s: u64|
                !(b == account@ && s == t) ==> final(self).has_pair(b, s) == old(self).has_pair(
                    b,
                    s,
                ),
            forall|b: Seq<u8>|
                b != account@ ==> final(self).has_account(b) == old(self).has_account(b) && final(self).tokens_of(b) == old(self).tokens_of(b),
            final(self).has_account(account@),
            final(self).tokens_of(account@) == old(self).tokens_of(account@).push(t),
            added == !old(self).has_account(account@),
            final(self).count() == old(self).count() + (if added {
                1int
            } else {
                0int
            }),
    {
        match self.find(account) {
            Some(i) => {
                proof {
                    self.lemma_at(i as int);
                }
                let mut e = self.entries.remove(i);
                e.token_ids.push(t);
                self.entries.insert(i, e);
                proof {
                    assert(self.entries@ =~= old(self).entries@.update(
                        i as int,
                        self.entries@[i as int],
                    ));
                    self.lemma_add_update_post(*old(self), i as int, account@, t);
                }
                false
            },
            None => {
                let mut ids: Vec<u64> = Vec::new();
                ids.push(t);
                self.entries.push(OwnerEntry { account: account.clone(), token_ids: ids });
                proof {
                    self.lemma_add_push_post(*old(self), account@, t);
                }
                true
            },
        }
    }

    /// Helper for `add` when an existing entry at `i` gained one token.
    proof fn lemma_add_update_post(self, pre: OwnerIndex, i: int, a: Seq<u8>, t: u64)
        requires
            pre.wf(),
            0 <= i < pre.entries@.len(),
            pre.entries@[i].key() == a,
            !pre.has_pair(a, t),
            self.entries@ == pre.entries@.update(i, self.entries@[i]),
            self.entries@[i].key() == a,
            self.entries@[i].token_ids@ == pre.entries@[i].token_ids@.push(t),
        ensures
            self.wf(),
            self.has_account(a),
            self.tokens_of(a) == pre.tokens_of(a).push(t),
            self.has_pair(a, t),
            forall|b: Seq<u8>, s: u64|
                !(b == a && s == t) ==> self.has_pair(b, s) == pre.has_pair(b, s),
            forall|b: Seq<u8>|
                b != a ==> self.has_account(b) == pre.has_account(b) && self.tokens_of(b)
                    == pre.tokens_of(b),
    {
        pre.lemma_at(i);
        let newids = self.entries@[i].token_ids@;
        let oldids = pre.entries@[i].token_ids@;
        assert forall|p: int, q: int|
            0 <= p < q < newids.len() implies newids[p] != newids[q] by {
            if q == newids.len() - 1 {
                assert(newids[p] == oldids[p]);
                if oldids[p] == t {
                    assert(oldids.contains(t));
                }
            } else {
                assert(newids[p] == oldids[p]);
                assert(newids[q] == oldids[q]);
            }
        }
        assert forall|p: int, q: int|
            0 <= p < q < self.entries@.len() implies (#[trigger] self.entries@[p]).key() != (
        #[trigger] self.entries@[q]).key() by {
            assert(pre.entries@[p].key() == self.entries@[p].key());
            assert(pre.entries@[q].key() == self.entries@[q].key());
        }
        assert forall|j: int|
            0 <= j < self.entries@.len() implies (#[trigger] self.entries@[j]).token_ids@.len()
            > 0 by {
            if j != i {
                assert(self.entries@[j] == pre.entries@[j]);
            }
        }
        self.lemma_at(i);
        assert(newids.last() == t);
        assert(self.tokens_of(a).contains(t));
        assert forall|b: Seq<u8>|
            b != a implies self.has_account(b) == pre.has_account(b) && self.tokens_of(b)
            == pre.tokens_of(b) by {
            if self.has_account(b) {
                let j = self.acct_idx(b);
                assert(j != i);
                assert(pre.entries@[j].key() == b);
                pre.lemma_at(j);
                self.lemma_at(j);
            } else if pre.has_account(b) {
                let j = pre.acct_idx(b);
                assert(j != i);
                assert(self.entries@[j].key() == b);
            }
        }
        assert forall|b: Seq<u8>, s: u64|
            !(b == a && s == t) implies self.has_pair(b, s) == pre.has_pair(b, s) by {
            if b == a {
                if pre.tokens_of(a).contains(s) {
                    let p = choose|p: int|
                        0 <= p < oldids.len() && oldids[p]
                            == s;
                    assert(newids[p] == s);
                    assert(newids.contains(s));
                }
                if self.tokens_of(a).contains(s) && s != t {
                    let p = choose|p: int| 0 <= p < newids.len() && newids[p] == s;
                    assert(p < oldids.len());
                    assert(oldids[p] == s);
                    assert(oldids.contains(s));
                }
            }
        }
    }

    /// Helper for `add` when a fresh entry for `a` was pushed.
    proof fn lemma_add_push_post(self, pre: OwnerIndex, a: Seq<u8>, t: u64)
        requires
            pre.wf(),
            !pre.has_account(a),
            self.entries@ == pre.entries@.push(self.entries@.last()),
            self.entries@.last().key() == a,
            self.entries@.last().token_ids@ == seq![t],
        ensures
            self.wf(),
            self.has_account(a),
            self.tokens_of(a) == pre.tokens_of(a).push(t),
            self.has_pair(a, t),
            forall|b: Seq<u8>, s: u64|
                !(b == a && s == t) ==> self.has_pair(b, s) == pre.has_pair(b, s),
            forall|b: Seq<u8>|
                b != a ==> self.has_account(b) == pre.has_account(b) && self.tokens_of(b)
                    == pre.tokens_of(b),
    {
        let last = self.entries@.len() - 1;
        assert forall|p: int, q: int|
            0 <= p < q < self.entries@.len() implies (#[trigger] self.entries@[p]).key() != (
        #[trigger] self.entries@[q]).key() by {
            if q == last {
                assert(self.entries@[p] == pre.entries@[p]);
                if self.entries@[p].key() == a {
                    assert(pre.has_account(a));
                }
            } else {
                assert(pre.entries@[p].key() == self.entries@[p].key());
                assert(pre.entries@[q].key() == self.entries@[q].key());
            }
        }
        assert forall|j: int|
            0 <= j < self.entries@.len() implies (#[trigger] self.entries@[j]).token_ids@.len()
            > 0 by {
            if j != last {
                assert(self.entries@[j] == pre.entries@[j]);
            }
        }
        assert forall|i: int, p: int, q: int|
            #![trigger self.entries@[i].token_ids@[p], self.entries@[i].token_ids@[q]]
            0 <= i < self.entries@.len() && 0 <= p < q < self.entries@[i].token_ids@.len() implies self.entries@[i].token_ids@[p]
            != self.entries@[i].token_ids@[q] by {
            if i != last {
                assert(self.entries@[i] == pre.entries@[i]);
            }
        }
        self.lemma_at(last);
        assert(self.tokens_of(a) =~= pre.tokens_of(a).push(t));
        assert(self.tokens_of(a)[0] == t);
        assert(self.tokens_of(a).contains(t));
        assert forall|b: Seq<u8>|
            b != a implies self.has_account(b) == pre.has_account(b) && self.tokens_of(b)
            == pre.tokens_of(b) by {
            if self.has_account(b) {
                let j = self.acct_idx(b);
                assert(j != last);
                assert(pre.entries@[j].key() == b);
                pre.lemma_at(j);
                self.lemma_at(j);
            } else if pre.has_account(b) {
                let j = pre.acct_idx(b);
                assert(self.entries@[j].key() == b);
            }
        }
    }

    /// Records that `account` no longer holds units of token `t`.  Returns
    /// whether the account's entry was deleted outright.
    pub fn remove(&mut self, account: &AccountId, t: u64) -> (deleted: bool)
        requires
            old(self).wf(),
            old(self).has_pair(account@, t),
        ensures
            final(self).wf(),
            !final(self).has_pair(account@, t),
            forall|b: Seq<u8>, s: u64|
                !(b == account@ && s == t) ==> final(self).has_pair(b, s) == old(self).has_pair(
                    b,
                    s,
                ),
            forall|b: Seq<u8>|
                b != account@ ==> final(self).has_account(b) == old(self).has_account(b) && final(self).tokens_of(b) == old(self).tokens_of(b),
            final(self).has_account(account@) == (old(self).tokens_of(account@).len() > 1),
            final(self).tokens_of(account@).len() == old(self).tokens_of(account@).len() - 1,
            forall|s: u64|
                final(self).tokens_of(account@).contains(s) == (old(self).tokens_of(
                    account@,
                ).contains(s) && s != t),
            deleted == (old(self).tokens_of(account@).len() == 1),
            final(self).count() == old(self).count() - (if deleted {
                1int
            } else {
                0int
            }),
    {
        let idx = match self.find(account) {
            Some(i) => i,
            None => {
                proof {
                    assert(false);
                }
                0
            },
        };
        proof {
            self.lemma_at(idx as int);
        }
        let mut e = self.entries.remove(idx);
        let ghost oldids = e.token_ids@;
        let n = e.token_ids.len();
        let mut j: usize = 0;
        while j < n && e.token_ids[j] != t
            invariant
                j <= n,
                n == oldids.len(),
                e.token_ids@ == oldids,
                oldids.contains(t),
                forall|p: int| 0 <= p < j ==> oldids[p] != t,
            decreases n - j,
        {
            j = j + 1;
        }
        proof {
            if j == n {
                let w = choose|w: int| 0 <= w < oldids.len() && oldids[w] == t;
                assert(false);
            }
        }
        e.token_ids.remove(j);
        if e.token_ids.len() == 0 {
            proof {
                assert(oldids.len() == 1);
                self.lemma_remove_delete_post(*old(self), idx as int, account@, t);
            }
            true
        } else {
            self.entries.insert(idx, e);
            proof {
                assert(self.entries@ =~= old(self).entries@.update(
                    idx as int,
                    self.entries@[idx as int],
                ));
                self.lemma_remove_update_post(*old(self), idx as int, account@, t, j as int);
            }
            false
        }
    }

    /// Helper for `remove` when the whole entry at `i` was deleted.
    proof fn lemma_remove_delete_post(self, pre: OwnerIndex, i: int, a: Seq<u8>, t: u64)
        requires
            pre.wf(),
            0 <= i < pre.entries@.len(),
            pre.entries@[i].key() == a,
            pre.entries@[i].token_ids@.len() == 1,
            pre.entries@[i].token_ids@[0] == t,
            self.entries@ == pre.entries@.remove(i),
        ensures
            self.wf(),
            !self.has_account(a),
            self.tokens_of(a).len() == 0,
            forall|b: Seq<u8>, s: u64|
                !(b == a && s == t) ==> self.has_pair(b, s) == pre.has_pair(b, s),
            forall|b: Seq<u8>|
                b != a ==> self.has_account(b) == pre.has_account(b) && self.tokens_of(b)
                    == pre.tokens_of(b),
            !self.has_pair(a, t),
            forall|s: u64|
                self.tokens_of(a).contains(s) == (pre.tokens_of(a).contains(s) && s != t),
    {
        pre.lemma_at(i);
        assert forall|p: int, q: int|
            0 <= p < q < self.entries@.len() implies (#[trigger] self.entries@[p]).key() != (
        #[trigger] self.entries@[q]).key() by {
            let p0 = if p < i {
                p
            } else {
                p + 1
            };
            let q0 = if q < i {
                q
            } else {
                q + 1
            };
            assert(self.entries@[p] == pre.entries@[p0]);
            assert(self.entries@[q] == pre.entries@[q0]);
        }
        assert forall|j: int|
            0 <= j < self.entries@.len() implies ((#[trigger] self.entries@[j]).token_ids@.len() > 0
                && self.entries@[j].key() != a) by {
            let j0 = if j < i {
                j
            } else {
                j + 1
            };
            assert(self.entries@[j] == pre.entries@[j0]);
            if pre.entries@[j0].key() == a {
                pre.lemma_at(j0);
            }
        }
        assert forall|j: int, p: int, q: int|
            #![trigger self.entries@[j].token_ids@[p], self.entries@[j].token_ids@[q]]
            0 <= j < self.entries@.len() && 0 <= p < q < self.entries@[j].token_ids@.len() implies self.entries@[j].token_ids@[p]
            != self.entries@[j].token_ids@[q] by {
            let j0 = if j < i {
                j
            } else {
                j + 1
            };
            assert(self.entries@[j] == pre.entries@[j0]);
        }
        assert(!self.has_account(a));
        assert forall|b: Seq<u8>|
            b != a implies self.has_account(b) == pre.has_account(b) && self.tokens_of(b)
            == pre.tokens_of(b) by {
            if self.has_account(b) {
                let j = self.acct_idx(b);
                let j0 = if j < i {
                    j
                } else {
                    j + 1
                };
                assert(self.entries@[j] == pre.entries@[j0]);
                pre.lemma_at(j0);
                self.lemma_at(j);
            } else if pre.has_account(b) {
                let j0 = pre.acct_idx(b);
                assert(pre.entries@[j0].key() == b);
                assert(j0 != i);
                let j = if j0 < i {
                    j0
                } else {
                    j0 - 1
                };
                assert(self.entries@[j] == pre.entries@[j0]);
                assert(self.has_account(b));
            }
        }
        assert(pre.tokens_of(a).len() == 1);
        assert forall|s: u64|
            self.tokens_of(a).contains(s) == (pre.tokens_of(a).contains(s) && s != t) by {
            if pre.tokens_of(a).contains(s) {
                let w = choose|w: int| 0 <= w < pre.tokens_of(a).len() && pre.tokens_of(a)[w] == s;
                assert(w == 0);
                assert(s == t);
            }
        }
    }

    /// Helper for `remove` when the entry at `i` kept other tokens.
    proof fn lemma_remove_update_post(self, pre: OwnerIndex, i: int, a: Seq<u8>, t: u64, j: int)
        requires
            pre.wf(),
            0 <= i < pre.entries@.len(),
            pre.entries@[i].key() == a,
            0 <= j < pre.entries@[i].token_ids@.len(),
            pre.entries@[i].token_ids@[j] == t,
            pre.entries@[i].token_ids@.len() > 1,
            self.entries@ == pre.entries@.update(i, self.entries@[i]),
            self.entries@[i].key() == a,
            self.entries@[i].token_ids@ == pre.entries@[i].token_ids@.remove(j),
        ensures
            self.wf(),
            self.has_account(a),
            self.tokens_of(a).len() == pre.tokens_of(a).len() - 1,
            !self.has_pair(a, t),
            forall|b: Seq<u8>, s: u64|
                !(b == a && s == t) ==> self.has_pair(b, s) == pre.has_pair(b, s),
            forall|b: Seq<u8>|
                b != a ==> self.has_account(b) == pre.has_account(b) && self.tokens_of(b)
                    == pre.tokens_of(b),
            forall|s: u64|
                self.tokens_of(a).contains(s) == (pre.tokens_of(a).contains(s) && s != t),
    {
        pre.lemma_at(i);
        let newids = self.entries@[i].token_ids@;
        let oldids = pre.entries@[i].token_ids@;
        assert forall|p: int, q: int|
            0 <= p < q < self.entries@.len() implies (#[trigger] self.entries@[p]).key() != (
        #[trigger] self.entries@[q]).key() by {
            assert(pre.entries@[p].key() == self.entries@[p].key());
            assert(pre.entries@[q].key() == self.entries@[q].key());
        }
        assert forall|k: int|
            0 <= k < self.entries@.len() implies (#[trigger] self.entries@[k]).token_ids@.len()
            > 0 by {
            if k != i {
                assert(self.entries@[k] == pre.entries@[k]);
            }
        }
        assert forall|k: int, p: int, q: int|
            #![trigger self.entries@[k].token_ids@[p], self.entries@[k].token_ids@[q]]
            0 <= k < self.entries@.len() && 0 <= p < q < self.entries@[k].token_ids@.len() implies self.entries@[k].token_ids@[p]
            != self.entries@[k].token_ids@[q] by {
            if k != i {
                assert(self.entries@[k] == pre.entries@[k]);
            } else {
                let p0 = if p < j {
                    p
                } else {
                    p + 1
                };
                let q0 = if q < j {
                    q
                } else {
                    q + 1
                };
                assert(newids[p] == oldids[p0]);
                assert(newids[q] == oldids[q0]);
            }
        }
        self.lemma_at(i);
        assert forall|s: u64| newids.contains(s) == (oldids.contains(s) && s != t) by {
            if newids.contains(s) {
                let w = choose|w: int| 0 <= w < newids.len() && newids[w] == s;
                let w0 = if w < j {
                    w
                } else {
                    w + 1
                };
                assert(newids[w] == oldids[w0]);
                assert(oldids.contains(s));
                if s == t {
                    assert(oldids[w0] == t);
                    assert(oldids[j] == t);
                }
            }
            if oldids.contains(s) && s != t {
                let w0 = choose|w0: int| 0 <= w0 < oldids.len() && oldids[w0] == s;
                assert(w0 != j);
                let w = if w0 < j {
                    w0
                } else {
                    w0 - 1
                };
                assert(newids[w] == oldids[w0]);
                assert(newids.contains(s));
            }
        }
        assert forall|b: Seq<u8>|
            b != a implies self.has_account(b) == pre.has_account(b) && self.tokens_of(b)
            == pre.tokens_of(b) by {
            if self.has_account(b) {
                let k = self.acct_idx(b);
                assert(k != i);
                assert(pre.entries@[k].key() == b);
                pre.lemma_at(k);
                self.lemma_at(k);
            } else if pre.has_account(b) {
                let k = pre.acct_idx(b);
                assert(k != i);
                assert(self.entries@[k].key() == b);
            }
        }
    }
}

} // verus!
