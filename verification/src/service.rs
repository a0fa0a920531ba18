//! The orchestrating DAO service: member accounts, space listings, the
//! gate key for account creation, and the handle used for cross-service
//! minting.  Caller identity and time come from an `Environment`
//! implementation, never from a hard-coded host accessor.

use crate::env::{EmptyEnvironment, Environment};
use crate::protocol::DIP721Service;
use crate::types::{
    account_eq, space_eq, Account, AccountId, DaoServiceError, ErrorType, HousingUnit, Space,
    SpaceDetails, Tokens,
};
use vstd::prelude::*;

verus! {

/// Exported snapshot of the DAO's state, kept for upgrade continuity.
pub struct HousingDaoStorage {
    pub dip_service_principal: AccountId,
    pub accounts: Vec<Account>,
    pub spaces: Vec<Space>,
    pub secret_key: String,
}

/// The DAO service instance.
pub struct HousingDaoService<E: Environment> {
    pub env: E,
    pub dip_service: DIP721Service,
    pub accounts: Vec<Account>,
    pub spaces: Vec<Space>,
    pub secret_key: String,
    pub next_space_id: u64,
}

/// The holdings among `s` recorded against space `id`.
pub open spec fn units_with_id(s: Seq<HousingUnit>, id: u64) -> Seq<HousingUnit>
    decreases s.len(),
{
    if s.len() == 0 {
        Seq::empty()
    } else {
        let rest = units_with_id(s.drop_last(), id);
        if s.last().id == id {
            rest.push(s.last())
        } else {
            rest
        }
    }
}

impl<E: Environment> HousingDaoService<E> {
    /// Account principals are unique.
    pub open spec fn accounts_unique(self) -> bool {
        forall|i: int, j: int|
            0 <= i < j < self.accounts@.len() ==> (#[trigger] self.accounts@[i]).principal@ != (
            #[trigger] self.accounts@[j]).principal@
    }

    /// Space identifiers are unique.
    pub open spec fn spaces_unique(self) -> bool {
        forall|i: int, j: int|
            0 <= i < j < self.spaces@.len() ==> (#[trigger] self.spaces@[i]).id != (
            #[trigger] self.spaces@[j]).id
    }

    /// Well-formedness: account principals and space identifiers are unique.
    pub open spec fn wf(self) -> bool {
        self.accounts_unique() && self.spaces_unique()
    }

    pub open spec fn has_account(self, b: Seq<u8>) -> bool {
        exists|i: int|
            0 <= i < self.accounts@.len() && (#[trigger] self.accounts@[i]).principal@ == b
    }

    pub open spec fn acct_idx(self, b: Seq<u8>) -> int {
        choose|i: int|
            0 <= i < self.accounts@.len() && (#[trigger] self.accounts@[i]).principal@ == b
    }

    pub open spec fn account_of(self, b: Seq<u8>) -> Account {
        self.accounts@[self.acct_idx(b)]
    }

    pub open spec fn has_space(self, id: u64) -> bool {
        exists|i: int| 0 <= i < self.spaces@.len() && (#[trigger] self.spaces@[i]).id == id
    }

    pub open spec fn space_idx(self, id: u64) -> int {
        choose|i: int| 0 <= i < self.spaces@.len() && (#[trigger] self.spaces@[i]).id == id
    }

    pub open spec fn space_of(self, id: u64) -> Space {
        self.spaces@[self.space_idx(id)]
    }

    /// With unique principals, any position holding `b` is the resolved one.
    pub proof fn lemma_account_at(self, j: int)
        requires
            self.accounts_unique(),
            0 <= j < self.accounts@.len(),
        ensures
            self.has_account(self.accounts@[j].principal@),
            self.acct_idx(self.accounts@[j].principal@) == j,
            self.account_of(self.accounts@[j].principal@) == self.accounts@[j],
    {
        let b = self.accounts@[j].principal@;
        assert(self.has_account(b));
        let i = self.acct_idx(b);
        if i != j {
            if i < j {
                assert(self.accounts@[i].principal@ != self.accounts@[j].principal@);
            } else {
                assert(self.accounts@[j].principal@ != self.accounts@[i].principal@);
            }
            assert(false);
        }
    }

    /// With unique identifiers, any position holding `id` is the resolved one.
    pub proof fn lemma_space_at(self, j: int)
        requires
            self.spaces_unique(),
            0 <= j < self.spaces@.len(),
        ensures
            self.has_space(self.spaces@[j].id),
            self.space_idx(self.spaces@[j].id) == j,
            self.space_of(self.spaces@[j].id) == self.spaces@[j],
    {
        let id = self.spaces@[j].id;
        assert(self.has_space(id));
        let i = self.space_idx(id);
        if i != j {
            if i < j {
                assert(self.spaces@[i].id != self.spaces@[j].id);
            } else {
                assert(self.spaces@[j].id != self.spaces@[i].id);
            }
            assert(false);
        }
    }

    fn find_account(&self, account: &AccountId) -> (r: Option<usize>)
        ensures
            match r {
                Some(i) => i < self.accounts@.len() && self.accounts@[i as int].principal@
                    == account@,
                None => !self.has_account(account@),
            },
    {
        let mut i: usize = 0;
        while i < self.accounts.len()
            invariant
                i <= self.accounts@.len(),
                forall|j: int| 0 <= j < i ==> (#[trigger] self.accounts@[j]).principal@ != account@,
            decreases self.accounts@.len() - i,
        {
            if self.accounts[i].principal == *account {
                return Some(i);
            }
            i = i + 1;
        }
        None
    }

    fn find_space(&self, id: u64) -> (r: Option<usize>)
        ensures
            match r {
                Some(i) => i < self.spaces@.len() && self.spaces@[i as int].id == id,
                None => !self.has_space(id),
            },
    {
        let mut i: usize = 0;
        while i < self.spaces.len()
            invariant
                i <= self.spaces@.len(),
                forall|j: int| 0 <= j < i ==> (#[trigger] self.spaces@[j]).id != id,
            decreases self.spaces@.len() - i,
        {
            if self.spaces[i].id == id {
                return Some(i);
            }
            i = i + 1;
        }
        None
    }

    /// Registers (or replaces) a member account, gated by the service's
    /// secret key.  A wrong key fails and changes nothing.
    pub fn create_account(&mut self, secret_key: String, account: Account) -> (r: Result<
        AccountId,
        DaoServiceError,
    >)
        requires
            old(self).wf(),
        ensures
            final(self).wf(),
            secret_key@ != old(self).secret_key@ ==> (r matches Err(d) && d.error_type
                matches ErrorType::Failure(m) && m@ == "unable to create account"@) && *final(self)
                == *old(self),
            secret_key@ == old(self).secret_key@ ==> {
                &&& r matches Ok(p) && p@ == account.principal@
                &&& final(self).has_account(account.principal@)
                &&& final(self).account_of(account.principal@) == account
                &&& forall|b: Seq<u8>|
                    b != account.principal@ ==> final(self).has_account(b) == old(
                        self,
                    ).has_account(b)
                &&& forall|b: Seq<u8>|
                    b != account.principal@ && old(self).has_account(b) ==> final(self).account_of(
                        b,
                    ) == old(self).account_of(b)
                &&& final(self).accounts@.len() == old(self).accounts@.len() + (if old(
                    self,
                ).has_account(account.principal@) {
                    0int
                } else {
                    1int
                })
                &&& final(self).spaces == old(self).spaces
                &&& final(self).secret_key == old(self).secret_key
                &&& final(self).next_space_id == old(self).next_space_id
            },
    {
        if !(secret_key == self.secret_key) {
            return Err(
                DaoServiceError {
                    error_type: ErrorType::Failure(String::from_str("unable to create account")),
                },
            );
        }
        let p = account.principal.clone();
        let ghost pre = *self;
        match self.find_account(&account.principal) {
            Some(i) => {
                proof {
                    pre.lemma_account_at(i as int);
                }
                self.accounts.set(i, account);
                proof {
                    let post = *self;
                    assert forall|x: int, y: int|
                        0 <= x < y < post.accounts@.len() implies (
                    #[trigger] post.accounts@[x]).principal@ != (
                    #[trigger] post.accounts@[y]).principal@ by {
                        assert(pre.accounts@[x].principal@ == post.accounts@[x].principal@);
                        assert(pre.accounts@[y].principal@ == post.accounts@[y].principal@);
                    }
                    post.lemma_account_at(i as int);
                    assert forall|b: Seq<u8>| b != post.accounts@[i as int].principal@ implies post.has_account(
                        b,
                    ) == pre.has_account(b) && (pre.has_account(b) ==> post.account_of(b)
                        == pre.account_of(b)) by {
                        if post.has_account(b) {
                            let j = post.acct_idx(b);
                            assert(j != i);
                            assert(pre.accounts@[j].principal@ == b);
                            pre.lemma_account_at(j);
                            post.lemma_account_at(j);
                        } else if pre.has_account(b) {
                            let j = pre.acct_idx(b);
                            assert(j != i);
                            assert(post.accounts@[j].principal@ == b);
                        }
                    }
                }
            },
            None => {
                self.accounts.push(account);
                proof {
                    let post = *self;
                    let last = post.accounts@.len() - 1;
                    assert forall|x: int, y: int|
                        0 <= x < y < post.accounts@.len() implies (
                    #[trigger] post.accounts@[x]).principal@ != (
                    #[trigger] post.accounts@[y]).principal@ by {
                        if y == last {
                            assert(post.accounts@[x] == pre.accounts@[x]);
                            if pre.accounts@[x].principal@ == post.accounts@[last].principal@ {
                                assert(pre.has_account(post.accounts@[last].principal@));
                            }
                        } else {
                            assert(pre.accounts@[x].principal@ == post.accounts@[x].principal@);
                            assert(pre.accounts@[y].principal@ == post.accounts@[y].principal@);
                        }
                    }
                    post.lemma_account_at(last);
                    assert forall|b: Seq<u8>| b != post.accounts@[last].principal@ implies post.has_account(
                        b,
                    ) == pre.has_account(b) && (pre.has_account(b) ==> post.account_of(b)
                        == pre.account_of(b)) by {
                        if post.has_account(b) {
                            let j = post.acct_idx(b);
                            assert(j != last);
                            assert(pre.accounts@[j].principal@ == b);
                            pre.lemma_account_at(j);
                            post.lemma_account_at(j);
                        } else if pre.has_account(b) {
                            let j = pre.acct_idx(b);
                            assert(post.accounts@[j].principal@ == b);
                        }
                    }
                }
            },
        }
        Ok(p)
    }

    /// Cloned snapshots of every listed space.
    pub fn get_all_spaces(&self) -> (r: Vec<Space>)
        ensures
            r@.len() == self.spaces@.len(),
            forall|i: int| 0 <= i < r@.len() ==> space_eq(#[trigger] r@[i], self.spaces@[i]),
    {
        let mut r: Vec<Space> = Vec::new();
        let mut i: usize = 0;
        while i < self.spaces.len()
            invariant
                i <= self.spaces@.len(),
                r@.len() == i,
                forall|j: int| 0 <= j < i ==> space_eq(#[trigger] r@[j], self.spaces@[j]),
            decreases self.spaces@.len() - i,
        {
            r.push(self.spaces[i].clone());
            i = i + 1;
        }
        r
    }

    /// What an account lookup returns for the identity `c`.
    pub open spec fn account_lookup_post(
        self,
        c: Seq<u8>,
        r: Result<Account, DaoServiceError>,
    ) -> bool {
        if self.has_account(c) {
            r matches Ok(a) && account_eq(a, self.account_of(c))
        } else {
            r matches Err(d) && d.error_type matches ErrorType::NotFound(m) && m@
                == "account not found"@
        }
    }

    /// The account record of `caller`, cloned.
    pub fn get_account_details_for(&self, caller: &AccountId) -> (r: Result<
        Account,
        DaoServiceError,
    >)
        requires
            self.wf(),
        ensures
            self.account_lookup_post(caller@, r),
    {
        match self.find_account(caller) {
            Some(i) => {
                proof {
                    self.lemma_account_at(i as int);
                }
                Ok(self.accounts[i].clone())
            },
            None => Err(
                DaoServiceError {
                    error_type: ErrorType::NotFound(String::from_str("account not found")),
                },
            ),
        }
    }

    /// The account record of whatever identity the environment reports.
    pub fn get_account_details(&self) -> (r: Result<Account, DaoServiceError>)
        requires
            self.wf(),
        ensures
            exists|c: Seq<u8>| #[trigger] self.account_lookup_post(c, r),
    {
        let caller = self.env.caller();
        let r = self.get_account_details_for(&caller);
        proof {
            assert(self.account_lookup_post(caller@, r));
        }
        r
    }

    /// What a balance lookup returns for the identity `c`.
    pub open spec fn balance_lookup_post(
        self,
        c: Seq<u8>,
        r: Result<Tokens, DaoServiceError>,
    ) -> bool {
        if self.has_account(c) {
            r == Ok::<Tokens, DaoServiceError>(self.account_of(c).tokens)
        } else {
            r matches Err(d) && d.error_type matches ErrorType::NotFound(m) && m@
                == "account not found"@
        }
    }

    /// The token balance of `caller`'s account.
    pub fn get_balance_of(&self, caller: &AccountId) -> (r: Result<Tokens, DaoServiceError>)
        requires
            self.wf(),
        ensures
            self.balance_lookup_post(caller@, r),
    {
        match self.find_account(caller) {
            Some(i) => {
                proof {
                    self.lemma_account_at(i as int);
                }
                Ok(self.accounts[i].tokens)
            },
            None => Err(
                DaoServiceError {
                    error_type: ErrorType::NotFound(String::from_str("account not found")),
                },
            ),
        }
    }

    /// The token balance of whatever identity the environment reports.
    pub fn get_balance(&self) -> (r: Result<Tokens, DaoServiceError>)
        requires
            self.wf(),
        ensures
            exists|c: Seq<u8>| #[trigger] self.balance_lookup_post(c, r),
    {
        let caller = self.env.caller();
        let r = self.get_balance_of(&caller);
        proof {
            assert(self.balance_lookup_post(caller@, r));
        }
        r
    }

    /// What a holdings lookup returns for the identity `c`.
    pub open spec fn units_lookup_post(
        self,
        c: Seq<u8>,
        r: Result<Vec<HousingUnit>, DaoServiceError>,
    ) -> bool {
        if self.has_account(c) {
            r matches Ok(v) && v@ == self.account_of(c).housing_units@
        } else {
            r matches Err(d) && d.error_type matches ErrorType::NotFound(m) && m@
                == "account not found"@
        }
    }

    /// The holdings recorded on `caller`'s account.
    pub fn get_housing_units_of(&self, caller: &AccountId) -> (r: Result<
        Vec<HousingUnit>,
        DaoServiceError,
    >)
        requires
            self.wf(),
        ensures
            self.units_lookup_post(caller@, r),
    {
        match self.find_account(caller) {
            Some(i) => {
                let units = self.accounts[i].housing_units.clone();
                proof {
                    self.lemma_account_at(i as int);
                    assert forall|j: int|
                        0 <= j < self.accounts@[i as int].housing_units@.len() implies units@[j]
                        == self.accounts@[i as int].housing_units@[j] by {
                        assert(cloned::<HousingUnit>(
                            self.accounts@[i as int].housing_units[j],
                            units[j],
                        ));
                    }
                    assert(units@ =~= self.accounts@[i as int].housing_units@);
                }
                Ok(units)
            },
            None => Err(
                DaoServiceError {
                    error_type: ErrorType::NotFound(String::from_str("account not found")),
                },
            ),
        }
    }

    /// The holdings of whatever identity the environment reports.
    pub fn get_housing_units(&self) -> (r: Result<Vec<HousingUnit>, DaoServiceError>)
        requires
            self.wf(),
        ensures
            exists|c: Seq<u8>| #[trigger] self.units_lookup_post(c, r),
    {
        let caller = self.env.caller();
        let r = self.get_housing_units_of(&caller);
        proof {
            assert(self.units_lookup_post(caller@, r));
        }
        r
    }

    /// What a per-space holdings lookup returns for the identity `c`.
    pub open spec fn units_from_space_lookup_post(
        self,
        c: Seq<u8>,
        space_id: u64,
        r: Result<Vec<HousingUnit>, DaoServiceError>,
    ) -> bool {
        if self.has_account(c) {
            r matches Ok(v) && v@ == units_with_id(self.account_of(c).housing_units@, space_id)
        } else {
            r matches Err(d) && d.error_type matches ErrorType::NotFound(m) && m@
                == "account not found"@
        }
    }

    /// The holdings on `caller`'s account recorded against one space.
    pub fn get_housing_units_from_space_of(&self, caller: &AccountId, space_id: u64) -> (r: Result<
        Vec<HousingUnit>,
        DaoServiceError,
    >)
        requires
            self.wf(),
        ensures
            self.units_from_space_lookup_post(caller@, space_id, r),
    {
        let i = match self.find_account(caller) {
            Some(i) => i,
            None => {
                return Err(
                    DaoServiceError {
                        error_type: ErrorType::NotFound(String::from_str("account not found")),
                    },
                );
            },
        };
        proof {
            self.lemma_account_at(i as int);
        }
        let ghost all = self.accounts@[i as int].housing_units@;
        let mut out: Vec<HousingUnit> = Vec::new();
        let mut j: usize = 0;
        let n = self.accounts[i].housing_units.len();
        while j < n
            invariant
                i < self.accounts@.len(),
                n == all.len(),
                all == self.accounts@[i as int].housing_units@,
                j <= n,
                out@ == units_with_id(all.take(j as int), space_id),
            decreases n - j,
        {
            proof {
                assert(all.take(j + 1).drop_last() =~= all.take(j as int));
                assert(all.take(j + 1).last() == all[j as int]);
            }
            let u = self.accounts[i].housing_units[j];
            if u.id == space_id {
                out.push(u);
            }
            j = j + 1;
        }
        proof {
            assert(all.take(all.len() as int) =~= all);
        }
        Ok(out)
    }

    /// The per-space holdings of whatever identity the environment reports.
    pub fn get_housing_units_from_space(&self, space_id: u64) -> (r: Result<
        Vec<HousingUnit>,
        DaoServiceError,
    >)
        requires
            self.wf(),
        ensures
            exists|c: Seq<u8>| #[trigger] self.units_from_space_lookup_post(c, space_id, r),
    {
        let caller = self.env.caller();
        let r = self.get_housing_units_from_space_of(&caller, space_id);
        proof {
            assert(self.units_from_space_lookup_post(caller@, space_id, r));
        }
        r
    }

    /// Cloned snapshots of every member account.
    pub fn list_accounts(&self) -> (r: Vec<Account>)
        ensures
            r@.len() == self.accounts@.len(),
            forall|i: int| 0 <= i < r@.len() ==> account_eq(#[trigger] r@[i], self.accounts@[i]),
    {
        let mut r: Vec<Account> = Vec::new();
        let mut i: usize = 0;
        while i < self.accounts.len()
            invariant
                i <= self.accounts@.len(),
                r@.len() == i,
                forall|j: int| 0 <= j < i ==> account_eq(#[trigger] r@[j], self.accounts@[j]),
            decreases self.accounts@.len() - i,
        {
            r.push(self.accounts[i].clone());
            i = i + 1;
        }
        r
    }

    /// Lists a new space owned by `caller` under the next identifier.  The
    /// identifier counter always advances; a collision with an already
    /// listed identifier fails without touching the listings.
    pub fn create_space_by(&mut self, caller: &AccountId, details: SpaceDetails) -> (r: Result<
        u64,
        DaoServiceError,
    >)
        requires
            old(self).wf(),
            old(self).next_space_id < u64::MAX,
        ensures
            final(self).wf(),
            final(self).next_space_id == old(self).next_space_id + 1,
            final(self).accounts == old(self).accounts,
            final(self).secret_key == old(self).secret_key,
            old(self).has_space(old(self).next_space_id) ==> (r matches Err(d) && d.error_type
                matches ErrorType::Failure(m) && m@ == "unable to add space"@) && final(self).spaces
                == old(self).spaces,
            !old(self).has_space(old(self).next_space_id) ==> {
                &&& r == Ok::<u64, DaoServiceError>(old(self).next_space_id)
                &&& final(self).spaces@.len() == old(self).spaces@.len() + 1
                &&& forall|i: int|
                    0 <= i < old(self).spaces@.len() ==> final(self).spaces@[i] == old(
                        self,
                    ).spaces@[i]
                &&& final(self).spaces@.last().id == old(self).next_space_id
                &&& final(self).spaces@.last().details.owner@ == caller@
                &&& final(self).spaces@.last().details.location == details.location
                &&& final(self).spaces@.last().details.description == details.description
                &&& final(self).spaces@.last().details.price_per_unit == details.price_per_unit
                &&& final(self).spaces@.last().details.units_available == details.units_available
            },
    {
        let mut details = details;
        details.owner = caller.clone();
        let id = self.next_space_id;
        self.next_space_id = id + 1;
        let ghost pre = *old(self);
        match self.find_space(id) {
            Some(_) => Err(
                DaoServiceError {
                    error_type: ErrorType::Failure(String::from_str("unable to add space")),
                },
            ),
            None => {
                self.spaces.push(Space { id, details });
                proof {
                    let post = *self;
                    let last = post.spaces@.len() - 1;
                    assert forall|x: int, y: int|
                        0 <= x < y < post.spaces@.len() implies (#[trigger] post.spaces@[x]).id != (
                    #[trigger] post.spaces@[y]).id by {
                        if y == last {
                            assert(post.spaces@[x] == pre.spaces@[x]);
                            if pre.spaces@[x].id == id {
                                assert(pre.has_space(id));
                            }
                        } else {
                            assert(pre.spaces@[x].id == post.spaces@[x].id);
                            assert(pre.spaces@[y].id == post.spaces@[y].id);
                        }
                    }
                }
                Ok(id)
            },
        }
    }

    /// What listing a space returns when the environment reported `c`.
    pub open spec fn create_space_post(
        pre: Self,
        post: Self,
        c: Seq<u8>,
        details: SpaceDetails,
        r: Result<u64, DaoServiceError>,
    ) -> bool {
        &&& post.wf()
        &&& post.next_space_id == pre.next_space_id + 1
        &&& post.accounts == pre.accounts
        &&& (pre.has_space(pre.next_space_id) ==> (r matches Err(d) && d.error_type
            matches ErrorType::Failure(m) && m@ == "unable to add space"@) && post.spaces
            == pre.spaces)
        &&& (!pre.has_space(pre.next_space_id) ==> {
            &&& r == Ok::<u64, DaoServiceError>(pre.next_space_id)
            &&& post.spaces@.len() == pre.spaces@.len() + 1
            &&& post.spaces@.last().id == pre.next_space_id
            &&& post.spaces@.last().details.owner@ == c
            &&& post.spaces@.last().details.location == details.location
            &&& post.spaces@.last().details.price_per_unit == details.price_per_unit
            &&& post.spaces@.last().details.units_available == details.units_available
        })
    }

    /// Lists a new space owned by whatever identity the environment reports.
    pub fn create_space(&mut self, details: SpaceDetails) -> (r: Result<u64, DaoServiceError>)
        requires
            old(self).wf(),
            old(self).next_space_id < u64::MAX,
        ensures
            exists|c: Seq<u8>|
                #[trigger] Self::create_space_post(*old(self), *final(self), c, details, r),
    {
        let caller = self.env.caller();
        let ghost c = caller@;
        let r = self.create_space_by(&caller, details);
        proof {
            assert(Self::create_space_post(*old(self), *self, c, details, r));
        }
        r
    }
}

impl<E: Environment> HousingDaoService<E> {
    /// Re-houses the service state under another environment implementation,
    /// as when a rebuilt snapshot is wired to the production host.
    pub fn with_env<F: Environment>(self, env: F) -> (r: HousingDaoService<F>)
        ensures
            r.dip_service == self.dip_service,
            r.accounts == self.accounts,
            r.spaces == self.spaces,
            r.secret_key == self.secret_key,
            r.next_space_id == self.next_space_id,
            self.wf() ==> r.wf(),
    {
        let r = HousingDaoService {
            env,
            dip_service: self.dip_service,
            accounts: self.accounts,
            spaces: self.spaces,
            secret_key: self.secret_key,
            next_space_id: self.next_space_id,
        };
        proof {
            if self.wf() {
                assert forall|i: int, j: int|
                    0 <= i < j < r.accounts@.len() implies (#[trigger] r.accounts@[i]).principal@
                    != (#[trigger] r.accounts@[j]).principal@ by {
                    assert(self.accounts@[i].principal@ != self.accounts@[j].principal@);
                }
                assert forall|i: int, j: int|
                    0 <= i < j < r.spaces@.len() implies (#[trigger] r.spaces@[i]).id != (
                #[trigger] r.spaces@[j]).id by {
                    assert(self.spaces@[i].id != self.spaces@[j].id);
                }
            }
        }
        r
    }
}

impl Default for HousingDaoService<EmptyEnvironment> {
    /// A fresh service with no members, no listings, the default gate key,
    /// and an inert environment.
    fn default() -> (r: HousingDaoService<EmptyEnvironment>)
        ensures
            r.wf(),
            r.accounts@.len() == 0,
            r.spaces@.len() == 0,
            r.secret_key@ == "default_key"@,
            r.next_space_id == 0,
            r.dip_service.principal@ == seq![4u8],
    {
        HousingDaoService {
            env: EmptyEnvironment {},
            dip_service: DIP721Service { principal: AccountId::anonymous() },
            accounts: Vec::new(),
            spaces: Vec::new(),
            secret_key: String::from_str("default_key"),
            next_space_id: 0,
        }
    }
}

impl HousingDaoService<EmptyEnvironment> {
    /// Rebuilds a service from an exported snapshot.  Later snapshot entries
    /// win over earlier ones with the same key, as for a keyed insertion.
    pub fn from_storage(storage: HousingDaoStorage) -> (r: HousingDaoService<EmptyEnvironment>)
        ensures
            r.wf(),
            r.secret_key == storage.secret_key,
            r.dip_service.principal@ == storage.dip_service_principal@,
            r.next_space_id == 0,
            forall|b: Seq<u8>|
                r.has_account(b) == (exists|j: int|
                    0 <= j < storage.accounts@.len() && (#[trigger] storage.accounts@[j]).principal@
                        == b),
            forall|j: int|
                0 <= j < storage.accounts@.len() && (forall|k: int|
                    j < k < storage.accounts@.len()
                        ==> (#[trigger] storage.accounts@[k]).principal@
                        != storage.accounts@[j].principal@) ==> r.account_of(
                    (#[trigger] storage.accounts@[j]).principal@,
                ) == storage.accounts@[j],
            forall|id: u64|
                r.has_space(id) == (exists|j: int|
                    0 <= j < storage.spaces@.len() && (#[trigger] storage.spaces@[j]).id == id),
            forall|j: int|
                0 <= j < storage.spaces@.len() && (forall|k: int|
                    j < k < storage.spaces@.len() ==> (#[trigger] storage.spaces@[k]).id
                        != storage.spaces@[j].id) ==> r.space_of((#[trigger] storage.spaces@[j]).id)
                    == storage.spaces@[j],
    {
        let mut service: HousingDaoService<EmptyEnvironment> = HousingDaoService {
            env: EmptyEnvironment {},
            dip_service: DIP721Service { principal: storage.dip_service_principal },
            accounts: Vec::new(),
            spaces: Vec::new(),
            secret_key: storage.secret_key,
            next_space_id: 0,
        };
        let ghost accs = storage.accounts@;
        let mut accounts = storage.accounts;
        let mut i: usize = 0;
        let n = accounts.len();
        while i < n
            invariant
                service.wf(),
                n == accs.len(),
                i <= n,
                accounts@ =~= accs.skip(i as int),
                forall|b: Seq<u8>|
                    service.has_account(b) == (exists|j: int|
                        0 <= j < i && (#[trigger] accs[j]).principal@ == b),
                forall|j: int|
                    0 <= j < i && (forall|k: int|
                        j < k < i ==> (#[trigger] accs[k]).principal@ != accs[j].principal@)
                        ==> service.account_of((#[trigger] accs[j]).principal@) == accs[j],
                service.spaces@.len() == 0,
                service.secret_key == storage.secret_key,
                service.dip_service.principal@ == storage.dip_service_principal@,
                service.next_space_id == 0,
            decreases n - i,
        {
            proof {
                assert(accounts@[0] == accs[i as int]);
            }
            let account = accounts.remove(0);
            let ghost pre = service;
            match service.find_account(&account.principal) {
                Some(j) => {
                    proof {
                        pre.lemma_account_at(j as int);
                    }
                    service.accounts.set(j, account);
                    proof {
                        Self::lemma_upsert_replace(pre, service, j as int);
                    }
                },
                None => {
                    service.accounts.push(account);
                    proof {
                        Self::lemma_upsert_push(pre, service);
                    }
                },
            }
            i = i + 1;
            proof {
                assert(accounts@ =~= accs.skip(i as int));
                assert forall|j: int|
                    0 <= j < i && (forall|k: int|
                        j < k < i ==> (#[trigger] accs[k]).principal@ != accs[j].principal@)
                        implies service.account_of((#[trigger] accs[j]).principal@) == accs[j] by {
                    if j == i - 1 {
                        assert(service.account_of(accs[j].principal@) == accs[j]);
                    } else {
                        assert(accs[i - 1].principal@ != accs[j].principal@);
                    }
                }
            }
        }
        let ghost sps = storage.spaces@;
        let mut spaces = storage.spaces;
        let mut i2: usize = 0;
        let n2 = spaces.len();
        while i2 < n2
            invariant
                service.wf(),
                n2 == sps.len(),
                i2 <= n2,
                spaces@ =~= sps.skip(i2 as int),
                forall|b: Seq<u8>|
                    service.has_account(b) == (exists|j: int|
                        0 <= j < accs.len() && (#[trigger] accs[j]).principal@ == b),
                forall|j: int|
                    0 <= j < accs.len() && (forall|k: int|
                        j < k < accs.len() ==> (#[trigger] accs[k]).principal@ != accs[j].principal@)
                        ==> service.account_of((#[trigger] accs[j]).principal@) == accs[j],
                forall|id: u64|
                    service.has_space(id) == (exists|j: int|
                        0 <= j < i2 && (#[trigger] sps[j]).id == id),
                forall|j: int|
                    0 <= j < i2 && (forall|k: int| j < k < i2 ==> (#[trigger] sps[k]).id != sps[j].id)
                        ==> service.space_of((#[trigger] sps[j]).id) == sps[j],
                service.secret_key == storage.secret_key,
                service.dip_service.principal@ == storage.dip_service_principal@,
                service.next_space_id == 0,
            decreases n2 - i2,
        {
            proof {
                assert(spaces@[0] == sps[i2 as int]);
            }
            let space = spaces.remove(0);
            let ghost pre = service;
            match service.find_space(space.id) {
                Some(j) => {
                    proof {
                        pre.lemma_space_at(j as int);
                    }
                    service.spaces.set(j, space);
                    proof {
                        Self::lemma_space_upsert_replace(pre, service, j as int);
                    }
                },
                None => {
                    service.spaces.push(space);
                    proof {
                        Self::lemma_space_upsert_push(pre, service);
                    }
                },
            }
            i2 = i2 + 1;
            proof {
                assert(spaces@ =~= sps.skip(i2 as int));
                assert forall|j: int|
                    0 <= j < i2 && (forall|k: int| j < k < i2 ==> (#[trigger] sps[k]).id != sps[j].id)
                        implies service.space_of((#[trigger] sps[j]).id) == sps[j] by {
                    if j == i2 - 1 {
                        assert(service.space_of(sps[j].id) == sps[j]);
                    } else {
                        assert(sps[i2 - 1].id != sps[j].id);
                    }
                }
            }
        }
        service
    }

    /// Frame facts for replacing the account at `j` with one of equal key.
    proof fn lemma_upsert_replace(
        pre: HousingDaoService<EmptyEnvironment>,
        post: HousingDaoService<EmptyEnvironment>,
        j: int,
    )
        requires
            pre.wf(),
            0 <= j < pre.accounts@.len(),
            post.accounts@ == pre.accounts@.update(j, post.accounts@[j]),
            post.accounts@[j].principal@ == pre.accounts@[j].principal@,
            post.spaces@ == pre.spaces@,
        ensures
            post.wf(),
            forall|b: Seq<u8>| post.has_account(b) == pre.has_account(b),
            post.account_of(post.accounts@[j].principal@) == post.accounts@[j],
            forall|b: Seq<u8>|
                b != post.accounts@[j].principal@ && pre.has_account(b) ==> post.account_of(b)
                    == pre.account_of(b),
            forall|id: u64| post.has_space(id) == pre.has_space(id),
            forall|id: u64| pre.has_space(id) ==> post.space_of(id) == pre.space_of(id),
    {
        assert forall|x: int, y: int|
            0 <= x < y < post.accounts@.len() implies (#[trigger] post.accounts@[x]).principal@
            != (#[trigger] post.accounts@[y]).principal@ by {
            assert(pre.accounts@[x].principal@ == post.accounts@[x].principal@);
            assert(pre.accounts@[y].principal@ == post.accounts@[y].principal@);
        }
        post.lemma_account_at(j);
        assert forall|b: Seq<u8>| post.has_account(b) == pre.has_account(b) by {
            if post.has_account(b) {
                let x = post.acct_idx(b);
                assert(pre.accounts@[x].principal@ == b);
            }
            if pre.has_account(b) {
                let x = pre.acct_idx(b);
                assert(post.accounts@[x].principal@ == b);
            }
        }
        assert forall|b: Seq<u8>|
            b != post.accounts@[j].principal@ && pre.has_account(b) implies post.account_of(b)
            == pre.account_of(b) by {
            let x = pre.acct_idx(b);
            assert(pre.accounts@[x].principal@ == b);
            assert(x != j);
            pre.lemma_account_at(x);
            assert(post.accounts@[x].principal@ == b);
            post.lemma_account_at(x);
        }
        Self::lemma_spaces_same(pre, post);
    }

    /// Frame facts for appending an account with a fresh key.
    proof fn lemma_upsert_push(
        pre: HousingDaoService<EmptyEnvironment>,
        post: HousingDaoService<EmptyEnvironment>,
    )
        requires
            pre.wf(),
            post.accounts@ == pre.accounts@.push(post.accounts@.last()),
            !pre.has_account(post.accounts@.last().principal@),
            post.spaces@ == pre.spaces@,
        ensures
            post.wf(),
            forall|b: Seq<u8>|
                post.has_account(b) == (pre.has_account(b) || b
                    == post.accounts@.last().principal@),
            post.account_of(post.accounts@.last().principal@) == post.accounts@.last(),
            forall|b: Seq<u8>|
                b != post.accounts@.last().principal@ && pre.has_account(b) ==> post.account_of(b)
                    == pre.account_of(b),
            forall|id: u64| post.has_space(id) == pre.has_space(id),
            forall|id: u64| pre.has_space(id) ==> post.space_of(id) == pre.space_of(id),
    {
        let last = post.accounts@.len() - 1;
        assert forall|x: int, y: int|
            0 <= x < y < post.accounts@.len() implies (#[trigger] post.accounts@[x]).principal@
            != (#[trigger] post.accounts@[y]).principal@ by {
            if y == last {
                assert(post.accounts@[x] == pre.accounts@[x]);
                if pre.accounts@[x].principal@ == post.accounts@[last].principal@ {
                    assert(pre.has_account(post.accounts@[last].principal@));
                }
            } else {
                assert(pre.accounts@[x].principal@ == post.accounts@[x].principal@);
                assert(pre.accounts@[y].principal@ == post.accounts@[y].principal@);
            }
        }
        post.lemma_account_at(last);
        assert forall|b: Seq<u8>|
            post.has_account(b) == (pre.has_account(b) || b
                == post.accounts@.last().principal@) by {
            if post.has_account(b) {
                let x = post.acct_idx(b);
                if x != last {
                    assert(pre.accounts@[x].principal@ == b);
                }
            }
            if pre.has_account(b) {
                let x = pre.acct_idx(b);
                assert(post.accounts@[x].principal@ == b);
            }
        }
        assert forall|b: Seq<u8>|
            b != post.accounts@.last().principal@ && pre.has_account(b) implies post.account_of(b)
            == pre.account_of(b) by {
            let x = pre.acct_idx(b);
            assert(pre.accounts@[x].principal@ == b);
            pre.lemma_account_at(x);
            assert(post.accounts@[x].principal@ == b);
            post.lemma_account_at(x);
        }
        Self::lemma_spaces_same(pre, post);
    }

    /// Ledgers with equal space sequences agree on space accessors.
    proof fn lemma_spaces_same(
        pre: HousingDaoService<EmptyEnvironment>,
        post: HousingDaoService<EmptyEnvironment>,
    )
        requires
            post.spaces@ == pre.spaces@,
            pre.spaces_unique(),
        ensures
            forall|id: u64| post.has_space(id) == pre.has_space(id),
            forall|id: u64| pre.has_space(id) ==> post.space_of(id) == pre.space_of(id),
    {
        assert forall|id: u64| post.has_space(id) == pre.has_space(id) by {
            if post.has_space(id) {
                let x = post.space_idx(id);
                assert(pre.spaces@[x].id == id);
            }
            if pre.has_space(id) {
                let x = pre.space_idx(id);
                assert(post.spaces@[x].id == id);
            }
        }
        assert forall|id: u64| pre.has_space(id) implies post.space_of(id) == pre.space_of(id) by {
            let x = pre.space_idx(id);
            assert(pre.spaces@[x].id == id);
            pre.lemma_space_at(x);
            assert(post.spaces@[x].id == id);
            post.lemma_space_at(x);
        }
    }

    /// Frame facts for replacing the space at `j` with one of equal key.
    proof fn lemma_space_upsert_replace(
        pre: HousingDaoService<EmptyEnvironment>,
        post: HousingDaoService<EmptyEnvironment>,
        j: int,
    )
        requires
            pre.wf(),
            0 <= j < pre.spaces@.len(),
            post.spaces@ == pre.spaces@.update(j, post.spaces@[j]),
            post.spaces@[j].id == pre.spaces@[j].id,
            post.accounts@ == pre.accounts@,
        ensures
            post.wf(),
            forall|id: u64| post.has_space(id) == pre.has_space(id),
            post.space_of(post.spaces@[j].id) == post.spaces@[j],
            forall|id: u64|
                id != post.spaces@[j].id && pre.has_space(id) ==> post.space_of(id)
                    == pre.space_of(id),
            forall|b: Seq<u8>| post.has_account(b) == pre.has_account(b),
            forall|b: Seq<u8>| pre.has_account(b) ==> post.account_of(b) == pre.account_of(b),
    {
        assert forall|x: int, y: int|
            0 <= x < y < post.spaces@.len() implies (#[trigger] post.spaces@[x]).id != (
        #[trigger] post.spaces@[y]).id by {
            assert(pre.spaces@[x].id == post.spaces@[x].id);
            assert(pre.spaces@[y].id == post.spaces@[y].id);
        }
        post.lemma_space_at(j);
        assert forall|id: u64| post.has_space(id) == pre.has_space(id) by {
            if post.has_space(id) {
                let x = post.space_idx(id);
                assert(pre.spaces@[x].id == id);
            }
            if pre.has_space(id) {
                let x = pre.space_idx(id);
                assert(post.spaces@[x].id == id);
            }
        }
        assert forall|id: u64|
            id != post.spaces@[j].id && pre.has_space(id) implies post.space_of(id)
            == pre.space_of(id) by {
            let x = pre.space_idx(id);
            assert(pre.spaces@[x].id == id);
            assert(x != j);
            pre.lemma_space_at(x);
            assert(post.spaces@[x].id == id);
            post.lemma_space_at(x);
        }
        Self::lemma_accounts_same(pre, post);
    }

    /// Frame facts for appending a space with a fresh key.
    proof fn lemma_space_upsert_push(
        pre: HousingDaoService<EmptyEnvironment>,
        post: HousingDaoService<EmptyEnvironment>,
    )
        requires
            pre.wf(),
            post.spaces@ == pre.spaces@.push(post.spaces@.last()),
            !pre.has_space(post.spaces@.last().id),
            post.accounts@ == pre.accounts@,
        ensures
            post.wf(),
            forall|id: u64| post.has_space(id) == (pre.has_space(id) || id == post.spaces@.last().id),
            post.space_of(post.spaces@.last().id) == post.spaces@.last(),
            forall|id: u64|
                id != post.spaces@.last().id && pre.has_space(id) ==> post.space_of(id)
                    == pre.space_of(id),
            forall|b: Seq<u8>| post.has_account(b) == pre.has_account(b),
            forall|b: Seq<u8>| pre.has_account(b) ==> post.account_of(b) == pre.account_of(b),
    {
        let last = post.spaces@.len() - 1;
        assert forall|x: int, y: int|
            0 <= x < y < post.spaces@.len() implies (#[trigger] post.spaces@[x]).id != (
        #[trigger] post.spaces@[y]).id by {
            if y == last {
                assert(post.spaces@[x] == pre.spaces@[x]);
                if pre.spaces@[x].id == post.spaces@[last].id {
                    assert(pre.has_space(post.spaces@[last].id));
                }
            } else {
                assert(pre.spaces@[x].id == post.spaces@[x].id);
                assert(pre.spaces@[y].id == post.spaces@[y].id);
            }
        }
        post.lemma_space_at(last);
        assert forall|id: u64|
            post.has_space(id) == (pre.has_space(id) || id == post.spaces@.last().id) by {
            if post.has_space(id) {
                let x = post.space_idx(id);
                if x != last {
                    assert(pre.spaces@[x].id == id);
                }
            }
            if pre.has_space(id) {
                let x = pre.space_idx(id);
                assert(post.spaces@[x].id == id);
            }
        }
        assert forall|id: u64|
            id != post.spaces@.last().id && pre.has_space(id) implies post.space_of(id)
            == pre.space_of(id) by {
            let x = pre.space_idx(id);
            assert(pre.spaces@[x].id == id);
            pre.lemma_space_at(x);
            assert(post.spaces@[x].id == id);
            post.lemma_space_at(x);
        }
        Self::lemma_accounts_same(pre, post);
    }

    /// Ledgers with equal account sequences agree on account accessors.
    proof fn lemma_accounts_same(
        pre: HousingDaoService<EmptyEnvironment>,
        post: HousingDaoService<EmptyEnvironment>,
    )
        requires
            post.accounts@ == pre.accounts@,
            pre.accounts_unique(),
        ensures
            forall|b: Seq<u8>| post.has_account(b) == pre.has_account(b),
            forall|b: Seq<u8>| pre.has_account(b) ==> post.account_of(b) == pre.account_of(b),
    {
        assert forall|b: Seq<u8>| post.has_account(b) == pre.has_account(b) by {
            if post.has_account(b) {
                let x = post.acct_idx(b);
                assert(pre.accounts@[x].principal@ == b);
            }
            if pre.has_account(b) {
                let x = pre.acct_idx(b);
                assert(post.accounts@[x].principal@ == b);
            }
        }
        assert forall|b: Seq<u8>| pre.has_account(b) implies post.account_of(b) == pre.account_of(
            b,
        ) by {
            let x = pre.acct_idx(b);
            assert(pre.accounts@[x].principal@ == b);
            pre.lemma_account_at(x);
            assert(post.accounts@[x].principal@ == b);
            post.lemma_account_at(x);
        }
    }
}

} // verus!
