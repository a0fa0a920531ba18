//! The token ledger: per-token balance tables, the asset registry, the
//! custodian guard, the reverse owner index and aggregate statistics.
//!
//! Every mutating entry point authorizes the caller first and short-circuits
//! with no side effect when the caller is not a custodian.  Outside any one
//! operation the ledger keeps unit conservation: for every non-burned token,
//! the units held across all accounts equal the linked asset's total units
//! minus its available units.

use crate::holders::{holdings_eq, HolderTable, Holding};
use crate::owner_index::OwnerIndex;
use crate::types::{
    clone_properties, properties_eq, AccountId, CanisterError, HousingUnit, NftError, Property,
};
use vstd::prelude::*;

verus! {

/// Per-asset terms: unit price, pool size, units still available.
#[derive(Clone, Copy, Debug, PartialEq, Eq, Structural)]
pub struct AssetDescriptor {
    pub id: u64,
    pub price_per_unit: u64,
    pub total_units: u64,
    pub units_available: u64,
}

/// Aggregate counters maintained incrementally by the unit-moving operations.
#[derive(Clone, Copy, Debug, PartialEq, Eq, Structural)]
pub struct Stats {
    pub total_supply: u64,
    pub total_transactions: u64,
    pub total_unique_holders: u64,
    pub total_spaces: u64,
    pub cycles: u64,
}

/// Canister-level configuration: names and the custodian set.
pub struct CanisterMetaData {
    pub name: Option<String>,
    pub symbol: Option<String>,
    pub logo: Option<String>,
    pub created_at: u64,
    pub upgraded_at: u64,
    pub custodians: Vec<AccountId>,
}

/// One token: its asset link, balance table, metadata and burn state.
pub struct Token {
    pub id: u64,
    pub asset_id: u64,
    pub ownership: HolderTable,
    pub properties: Vec<Property>,
    pub burned: bool,
    pub burned_at: Option<u64>,
    pub burned_by: Option<AccountId>,
    pub minted_at: u64,
    pub minted_by: AccountId,
}

/// Deep value equality of two optional identities.
pub open spec fn opt_account_eq(a: Option<AccountId>, b: Option<AccountId>) -> bool {
    match (a, b) {
        (Option::None, Option::None) => true,
        (Option::Some(x), Option::Some(y)) => x@ == y@,
        _ => false,
    }
}

/// Deep value equality of two tokens.
pub open spec fn token_eq(a: Token, b: Token) -> bool {
    &&& a.id == b.id
    &&& a.asset_id == b.asset_id
    &&& holdings_eq(a.ownership.entries@, b.ownership.entries@)
    &&& properties_eq(a.properties@, b.properties@)
    &&& a.burned == b.burned
    &&& a.burned_at == b.burned_at
    &&& opt_account_eq(a.burned_by, b.burned_by)
    &&& a.minted_at == b.minted_at
    &&& a.minted_by@ == b.minted_by@
}

impl Clone for Token {
    fn clone(&self) -> (r: Token)
        ensures
            token_eq(r, *self),
    {
        Token {
            id: self.id,
            asset_id: self.asset_id,
            ownership: self.ownership.clone(),
            properties: clone_properties(&self.properties),
            burned: self.burned,
            burned_at: self.burned_at,
            burned_by: match &self.burned_by {
                Option::Some(a) => Option::Some(a.clone()),
                Option::None => Option::None,
            },
            minted_at: self.minted_at,
            minted_by: self.minted_by.clone(),
        }
    }
}

/// Clones an optional string; the copy equals its source.
fn clone_opt_string(s: &Option<String>) -> (r: Option<String>)
    ensures
        r == *s,
{
    match s {
        Option::Some(x) => Option::Some(x.clone()),
        Option::None => Option::None,
    }
}

/// Clones a custodian list entry by entry.
fn clone_accounts(v: &Vec<AccountId>) -> (r: Vec<AccountId>)
    ensures
        r@.len() == v@.len(),
        forall|i: int| 0 <= i < v@.len() ==> (#[trigger] r@[i])@ == v@[i]@,
{
    let mut r: Vec<AccountId> = Vec::new();
    let mut i: usize = 0;
    while i < v.len()
        invariant
            i <= v@.len(),
            r@.len() == i,
            forall|j: int| 0 <= j < i ==> (#[trigger] r@[j])@ == v@[j]@,
        decreases v@.len() - i,
    {
        r.push(v[i].clone());
        i = i + 1;
    }
    r
}

/// Deep value equality of two metadata records.
pub open spec fn metadata_eq(a: CanisterMetaData, b: CanisterMetaData) -> bool {
    &&& a.name == b.name
    &&& a.symbol == b.symbol
    &&& a.logo == b.logo
    &&& a.created_at == b.created_at
    &&& a.upgraded_at == b.upgraded_at
    &&& a.custodians@.len() == b.custodians@.len()
    &&& forall|i: int| 0 <= i < a.custodians@.len() ==> (#[trigger] a.custodians@[i])@
        == b.custodians@[i]@
}

impl Clone for CanisterMetaData {
    fn clone(&self) -> (r: CanisterMetaData)
        ensures
            metadata_eq(r, *self),
    {
        CanisterMetaData {
            name: clone_opt_string(&self.name),
            symbol: clone_opt_string(&self.symbol),
            logo: clone_opt_string(&self.logo),
            created_at: self.created_at,
            upgraded_at: self.upgraded_at,
            custodians: clone_accounts(&self.custodians),
        }
    }
}

/// Number of non-burned tokens in a token sequence.
pub open spec fn count_unburned(s: Seq<Token>) -> int
    decreases s.len(),
{
    if s.len() == 0 {
        0
    } else {
        count_unburned(s.drop_last()) + if s.last().burned {
            0int
        } else {
            1int
        }
    }
}

pub proof fn lemma_count_bounds(s: Seq<Token>)
    ensures
        0 <= count_unburned(s) <= s.len(),
    decreases s.len(),
{
    if s.len() > 0 {
        lemma_count_bounds(s.drop_last());
    }
}

pub proof fn lemma_count_push(s: Seq<Token>, t: Token)
    ensures
        count_unburned(s.push(t)) == count_unburned(s) + if t.burned {
            0int
        } else {
            1int
        },
{
    assert(s.push(t).drop_last() =~= s);
    assert(s.push(t).last() == t);
}

pub proof fn lemma_count_update(s: Seq<Token>, i: int, t: Token)
    requires
        0 <= i < s.len(),
    ensures
        count_unburned(s.update(i, t)) == count_unburned(s) - (if s[i].burned {
            0int
        } else {
            1int
        }) + (if t.burned {
            0int
        } else {
            1int
        }),
    decreases s.len(),
{
    if i == s.len() - 1 {
        assert(s.update(i, t).drop_last() =~= s.drop_last());
        assert(s.update(i, t).last() == t);
    } else {
        assert(s.update(i, t).drop_last() =~= s.drop_last().update(i, t));
        assert(s.update(i, t).last() == s.last());
        lemma_count_update(s.drop_last(), i, t);
    }
}

pub proof fn lemma_count_remove(s: Seq<Token>, i: int)
    requires
        0 <= i < s.len(),
    ensures
        count_unburned(s.remove(i)) == count_unburned(s) - (if s[i].burned {
            0int
        } else {
            1int
        }),
    decreases s.len(),
{
    if i == s.len() - 1 {
        assert(s.remove(i) =~= s.drop_last());
    } else {
        assert(s.remove(i).drop_last() =~= s.drop_last().remove(i));
        assert(s.remove(i).last() == s.last());
        lemma_count_remove(s.drop_last(), i);
    }
}

/// A non-burned token at `i` makes the count positive.
pub proof fn lemma_count_pos(s: Seq<Token>, i: int)
    requires
        0 <= i < s.len(),
        !s[i].burned,
    ensures
        count_unburned(s) >= 1,
{
    lemma_count_remove(s, i);
    lemma_count_bounds(s.remove(i));
}

/// Initialization arguments: names and an optional custodian set.
pub struct InitArguments {
    pub name: Option<String>,
    pub symbol: Option<String>,
    pub logo: Option<String>,
    pub custodians: Option<Vec<AccountId>>,
}

/// The ledger state owned by one service instance.
pub struct TokenLedger {
    pub metadata: CanisterMetaData,
    pub tokens: Vec<Token>,
    pub owners: OwnerIndex,
    pub assets: Vec<AssetDescriptor>,
    pub stats: Stats,
}

impl TokenLedger {
    /// Token identifiers are unique for the ledger's lifetime.
    pub open spec fn tokens_unique(self) -> bool {
        forall|i: int, j: int|
            0 <= i < j < self.tokens@.len() ==> (#[trigger] self.tokens@[i]).id != (
            #[trigger] self.tokens@[j]).id
    }

    pub open spec fn has_token(self, t: u64) -> bool {
        exists|i: int| 0 <= i < self.tokens@.len() && (#[trigger] self.tokens@[i]).id == t
    }

    pub open spec fn token_idx(self, t: u64) -> int {
        choose|i: int| 0 <= i < self.tokens@.len() && (#[trigger] self.tokens@[i]).id == t
    }

    pub open spec fn token_of(self, t: u64) -> Token {
        self.tokens@[self.token_idx(t)]
    }

    /// Whether some token (burned or not) is bound to asset `aid`.
    pub open spec fn asset_tokenized(self, aid: u64) -> bool {
        exists|i: int| 0 <= i < self.tokens@.len() && (#[trigger] self.tokens@[i]).asset_id == aid
    }

    /// Assets are registered under identifiers 1, 2, 3, ... in order.
    pub open spec fn assets_sequential(self) -> bool {
        forall|i: int| 0 <= i < self.assets@.len() ==> (#[trigger] self.assets@[i]).id == i + 1
    }

    pub open spec fn has_asset(self, aid: u64) -> bool {
        1 <= aid <= self.assets@.len()
    }

    pub open spec fn asset_of(self, aid: u64) -> AssetDescriptor {
        self.assets@[aid - 1]
    }

    pub open spec fn is_custodian(self, a: Seq<u8>) -> bool {
        exists|i: int|
            0 <= i < self.metadata.custodians@.len() && (#[trigger] self.metadata.custodians@[i])@
                == a
    }

    /// Units of token `t` held by account `a`.
    pub open spec fn units_on(self, t: u64, a: Seq<u8>) -> int {
        self.token_of(t).ownership.units_of(a)
    }

    /// Structural token invariants: unique identifiers, well-formed balance
    /// tables, burned tokens hold nothing, every token links a registered
    /// asset, and no two tokens share an asset.
    pub open spec fn wf_tokens(self) -> bool {
        &&& self.tokens_unique()
        &&& forall|i: int| 0 <= i < self.tokens@.len() ==> (#[trigger] self.tokens@[i]).ownership.wf()
        &&& forall|i: int|
            0 <= i < self.tokens@.len() && (#[trigger] self.tokens@[i]).burned
                ==> self.tokens@[i].ownership.entries@.len() == 0
        &&& forall|i: int|
            0 <= i < self.tokens@.len() ==> self.has_asset((#[trigger] self.tokens@[i]).asset_id)
        &&& forall|i: int, j: int|
            0 <= i < j < self.tokens@.len() ==> (#[trigger] self.tokens@[i]).asset_id != (
            #[trigger] self.tokens@[j]).asset_id
    }

    /// Unit conservation: every non-burned token's held units equal the
    /// linked asset's total units minus its available units.
    pub open spec fn conservation(self) -> bool {
        forall|i: int|
            0 <= i < self.tokens@.len() && !(#[trigger] self.tokens@[i]).burned
                ==> self.tokens@[i].ownership.total() == self.asset_of(
                self.tokens@[i].asset_id,
            ).total_units - self.asset_of(self.tokens@[i].asset_id).units_available
    }

    /// Asset invariants: sequential identifiers, availability bounded by the
    /// pool size, and an asset nothing was minted against is still whole.
    pub open spec fn wf_assets(self) -> bool {
        &&& self.assets_sequential()
        &&& forall|i: int|
            0 <= i < self.assets@.len() ==> (#[trigger] self.assets@[i]).units_available
                <= self.assets@[i].total_units
        &&& forall|i: int|
            0 <= i < self.assets@.len() && !self.asset_tokenized(
                (#[trigger] self.assets@[i]).id,
            ) ==> self.assets@[i].units_available == self.assets@[i].total_units
    }

    /// The owner index holds exactly the pairs (account, token) for which the
    /// token's balance table has a row for the account.
    pub open spec fn index_consistent(self) -> bool {
        forall|a: Seq<u8>, t: u64|
            #![trigger self.owners.has_pair(a, t)]
            self.owners.has_pair(a, t) <==> (self.has_token(t) && self.token_of(t).ownership.has(
                a,
            ))
    }

    /// The aggregate counters agree with the state they summarize.
    pub open spec fn stats_ok(self) -> bool {
        &&& self.stats.total_supply == count_unburned(self.tokens@)
        &&& self.stats.total_unique_holders == self.owners.count()
        &&& self.stats.total_spaces == self.assets@.len()
    }

    /// Ledger well-formedness, kept by every operation.
    pub open spec fn wf(self) -> bool {
        &&& self.wf_tokens()
        &&& self.conservation()
        &&& self.wf_assets()
        &&& self.owners.wf()
        &&& self.index_consistent()
        &&& self.stats_ok()
    }

    /// With unique identifiers, any position holding id `t` is the position
    /// `token_idx` resolves to.
    pub proof fn lemma_token_at(self, i: int)
        requires
            self.tokens_unique(),
            0 <= i < self.tokens@.len(),
        ensures
            self.has_token(self.tokens@[i].id),
            self.token_idx(self.tokens@[i].id) == i,
            self.token_of(self.tokens@[i].id) == self.tokens@[i],
    {
        let t = self.tokens@[i].id;
        assert(self.has_token(t));
        let j = self.token_idx(t);
        if i != j {
            if i < j {
                assert(self.tokens@[i].id != self.tokens@[j].id);
            } else {
                assert(self.tokens@[j].id != self.tokens@[i].id);
            }
            assert(false);
        }
    }

    /// Unit conservation, restated for one token: outside any mutating
    /// operation, a live token's held units equal the linked asset's total
    /// units minus its available units.
    pub proof fn lemma_unit_conservation(self, t: u64)
        requires
            self.wf(),
            self.has_token(t),
            !self.token_of(t).burned,
        ensures
            self.token_of(t).ownership.total() == self.asset_of(
                self.token_of(t).asset_id,
            ).total_units - self.asset_of(self.token_of(t).asset_id).units_available,
    {
        let i = self.token_idx(t);
    }

    /// A fresh ledger.  When the arguments carry no custodian (or an empty
    /// set), the initializing caller is seeded as the sole custodian, so the
    /// custodian set is never empty after initialization.
    pub fn init(args: Option<InitArguments>, caller: &AccountId, now: u64) -> (l: TokenLedger)
        ensures
            l.wf(),
            l.metadata.custodians@.len() > 0,
            l.tokens@.len() == 0,
            l.assets@.len() == 0,
            l.stats == (Stats {
                total_supply: 0,
                total_transactions: 0,
                total_unique_holders: 0,
                total_spaces: 0,
                cycles: 0,
            }),
            match args {
                Option::Some(a) => {
                    &&& l.metadata.name == a.name
                    &&& l.metadata.symbol == a.symbol
                    &&& l.metadata.logo == a.logo
                    &&& l.metadata.created_at == now
                    &&& l.metadata.upgraded_at == now
                    &&& match a.custodians {
                        Option::Some(c) => if c@.len() > 0 {
                            l.metadata.custodians == c
                        } else {
                            l.metadata.custodians@.len() == 1 && l.metadata.custodians@[0]@
                                == caller@
                        },
                        Option::None => l.metadata.custodians@.len() == 1
                            && l.metadata.custodians@[0]@ == caller@,
                    }
                },
                Option::None => {
                    &&& l.metadata.name is None
                    &&& l.metadata.symbol is None
                    &&& l.metadata.logo is None
                    &&& l.metadata.created_at == 0
                    &&& l.metadata.upgraded_at == 0
                    &&& l.metadata.custodians@.len() == 1 && l.metadata.custodians@[0]@ == caller@
                },
            },
    {
        let mut seeded: Vec<AccountId> = Vec::new();
        seeded.push(caller.clone());
        let metadata = match args {
            Option::Some(a) => {
                let custodians = match a.custodians {
                    Option::Some(c) => if c.len() > 0 {
                        c
                    } else {
                        seeded
                    },
                    Option::None => seeded,
                };
                CanisterMetaData {
                    name: a.name,
                    symbol: a.symbol,
                    logo: a.logo,
                    created_at: now,
                    upgraded_at: now,
                    custodians,
                }
            },
            Option::None => CanisterMetaData {
                name: Option::None,
                symbol: Option::None,
                logo: Option::None,
                created_at: 0,
                upgraded_at: 0,
                custodians: seeded,
            },
        };
        TokenLedger {
            metadata,
            tokens: Vec::new(),
            owners: OwnerIndex::new(),
            assets: Vec::new(),
            stats: Stats {
                total_supply: 0,
                total_transactions: 0,
                total_unique_holders: 0,
                total_spaces: 0,
                cycles: 0,
            },
        }
    }

    /// The custodian guard: succeeds exactly when the caller is a custodian.
    pub fn authorize(&self, caller: &AccountId) -> (r: Result<(), CanisterError>)
        ensures
            self.is_custodian(caller@) ==> r == Ok::<(), CanisterError>(()),
            !self.is_custodian(caller@) ==> r == Err::<(), CanisterError>(
                CanisterError::NotCustodian,
            ),
    {
        let mut i: usize = 0;
        while i < self.metadata.custodians.len()
            invariant
                i <= self.metadata.custodians@.len(),
                forall|j: int|
                    0 <= j < i ==> (#[trigger] self.metadata.custodians@[j])@ != caller@,
            decreases self.metadata.custodians@.len() - i,
        {
            if self.metadata.custodians[i] == *caller {
                return Ok(());
            }
            i = i + 1;
        }
        Err(CanisterError::NotCustodian)
    }

    /// Keeping the token, index, asset and counter state fixed keeps the
    /// ledger well-formed whatever happens to the metadata record.
    proof fn lemma_wf_core(pre: TokenLedger, post: TokenLedger)
        requires
            pre.wf(),
            post.tokens@ == pre.tokens@,
            post.owners == pre.owners,
            post.assets@ == pre.assets@,
            post.stats == pre.stats,
        ensures
            post.wf(),
    {
        assert forall|t: u64| post.has_token(t) == pre.has_token(t) by {
            if post.has_token(t) {
                let i = post.token_idx(t);
                assert(pre.tokens@[i].id == t);
                assert(pre.has_token(t));
            }
            if pre.has_token(t) {
                let i = pre.token_idx(t);
                assert(post.tokens@[i].id == t);
                assert(post.has_token(t));
            }
        }
        assert forall|aid: u64| post.asset_tokenized(aid) == pre.asset_tokenized(aid) by {
            if post.asset_tokenized(aid) {
                let i = post.token_idx_by_asset_witness(aid);
            }
        }
        assert(post.wf_tokens());
        assert(post.wf_assets()) by {
            assert forall|i: int|
                0 <= i < post.assets@.len() && !post.asset_tokenized(
                    (#[trigger] post.assets@[i]).id,
                ) implies post.assets@[i].units_available == post.assets@[i].total_units by {
                assert(!pre.asset_tokenized(pre.assets@[i].id));
            }
        }
        assert forall|a: Seq<u8>, t: u64| #![trigger post.owners.has_pair(a, t)]
            post.owners.has_pair(a, t) <==> (post.has_token(t) && post.token_of(t).ownership.has(
                a,
            )) by {
            assert(pre.owners.has_pair(a, t) <==> (pre.has_token(t)
                && pre.token_of(t).ownership.has(a)));
            if post.has_token(t) {
                let i = pre.token_idx(t);
                pre.lemma_token_at(i);
                post.lemma_token_at(i);
            }
        }
    }

    /// Spec-level witness helper: any tokenized asset of `post` is tokenized
    /// in a ledger with the same token sequence.
    proof fn token_idx_by_asset_witness(self, aid: u64) -> (i: int)
        requires
            self.asset_tokenized(aid),
        ensures
            0 <= i < self.tokens@.len(),
            self.tokens@[i].asset_id == aid,
    {
        choose|i: int| 0 <= i < self.tokens@.len() && (#[trigger] self.tokens@[i]).asset_id == aid
    }

    /// Registers a new space: a fresh asset with its whole pool available.
    pub fn create_space(&mut self, caller: &AccountId, price_per_unit: u64, total_units: u64) -> (r:
        Result<Result<u64, NftError>, CanisterError>)
        requires
            old(self).wf(),
            old(self).stats.total_spaces < u64::MAX,
        ensures
            final(self).wf(),
            !old(self).is_custodian(caller@) ==> r == Err::<Result<u64, NftError>, CanisterError>(
                CanisterError::NotCustodian,
            ) && *final(self) == *old(self),
            old(self).is_custodian(caller@) ==> {
                &&& r == Ok::<Result<u64, NftError>, CanisterError>(
                    Ok((old(self).assets@.len() + 1) as u64),
                )
                &&& final(self).assets@ == old(self).assets@.push(
                    AssetDescriptor {
                        id: (old(self).assets@.len() + 1) as u64,
                        price_per_unit,
                        total_units,
                        units_available: total_units,
                    },
                )
                &&& final(self).tokens@ == old(self).tokens@
                &&& final(self).owners == old(self).owners
                &&& final(self).metadata == old(self).metadata
                &&& final(self).stats == (Stats {
                    total_spaces: (old(self).stats.total_spaces + 1) as u64,
                    ..old(self).stats
                })
            },
    {
        if let Err(e) = self.authorize(caller) {
            return Err(e);
        }
        let id = self.stats.total_spaces + 1;
        self.assets.push(
            AssetDescriptor { id, price_per_unit, total_units, units_available: total_units },
        );
        self.stats.total_spaces = self.stats.total_spaces + 1;
        proof {
            let pre = *old(self);
            let post = *self;
            assert(post.assets@.len() == pre.assets@.len() + 1);
            assert forall|t: u64| post.has_token(t) == pre.has_token(t) by {
                if post.has_token(t) {
                    let i = post.token_idx(t);
                    assert(pre.tokens@[i].id == t);
                }
                if pre.has_token(t) {
                    let i = pre.token_idx(t);
                    assert(post.tokens@[i].id == t);
                }
            }
            assert(post.wf_tokens()) by {
                assert forall|i: int|
                    0 <= i < post.tokens@.len() implies post.has_asset(
                    (#[trigger] post.tokens@[i]).asset_id,
                ) by {
                    assert(pre.has_asset(pre.tokens@[i].asset_id));
                }
            }
            assert(post.conservation()) by {
                assert forall|i: int|
                    0 <= i < post.tokens@.len() && !(#[trigger] post.tokens@[i]).burned implies post.tokens@[i].ownership.total()
                    == post.asset_of(post.tokens@[i].asset_id).total_units - post.asset_of(
                    post.tokens@[i].asset_id,
                ).units_available by {
                    assert(pre.has_asset(pre.tokens@[i].asset_id));
                    assert(post.asset_of(post.tokens@[i].asset_id) == pre.asset_of(
                        pre.tokens@[i].asset_id,
                    ));
                }
            }
            assert(post.wf_assets()) by {
                assert forall|i: int|
                    0 <= i < post.assets@.len() && !post.asset_tokenized(
                        (#[trigger] post.assets@[i]).id,
                    ) implies post.assets@[i].units_available == post.assets@[i].total_units by {
                    if i < pre.assets@.len() {
                        assert(post.assets@[i] == pre.assets@[i]);
                        if pre.asset_tokenized(pre.assets@[i].id) {
                            let w = pre.token_idx_by_asset_witness(pre.assets@[i].id);
                            assert(post.tokens@[w].asset_id == post.assets@[i].id);
                            assert(post.asset_tokenized(post.assets@[i].id));
                        }
                    }
                }
            }
            assert forall|a: Seq<u8>, t: u64| #![trigger post.owners.has_pair(a, t)]
                post.owners.has_pair(a, t) <==> (post.has_token(t)
                    && post.token_of(t).ownership.has(a)) by {
                assert(pre.owners.has_pair(a, t) <==> (pre.has_token(t)
                    && pre.token_of(t).ownership.has(a)));
                if post.has_token(t) {
                    let i = pre.token_idx(t);
                    pre.lemma_token_at(i);
                    post.lemma_token_at(i);
                }
            }
        }
        Ok(Ok(id))
    }

    /// Terms of a registered space, or an error naming the missing space.
    pub fn get_space_data(&self, space_id: u64) -> (r: Result<AssetDescriptor, NftError>)
        ensures
            self.has_asset(space_id) ==> r == Ok::<AssetDescriptor, NftError>(
                self.asset_of(space_id),
            ),
            !self.has_asset(space_id) ==> (r matches Err(e) && e matches NftError::Other(m)
                && m@ == "space not found"@),
    {
        if 1 <= space_id && space_id <= self.assets.len() as u64 {
            Ok(self.assets[(space_id - 1) as usize])
        } else {
            Err(NftError::Other(String::from_str("space not found")))
        }
    }

    /// A cloned snapshot of the canister metadata record.
    pub fn get_canister_metadata(&self) -> (r: CanisterMetaData)
        ensures
            metadata_eq(r, self.metadata),
    {
        self.metadata.clone()
    }

    /// The aggregate counters.
    pub fn get_canister_stats(&self) -> (r: Stats)
        ensures
            r == self.stats,
    {
        self.stats
    }

    pub fn get_canister_name(&self) -> (r: Option<String>)
        ensures
            r == self.metadata.name,
    {
        clone_opt_string(&self.metadata.name)
    }

    pub fn get_canister_symbol(&self) -> (r: Option<String>)
        ensures
            r == self.metadata.symbol,
    {
        clone_opt_string(&self.metadata.symbol)
    }

    pub fn get_canister_logo(&self) -> (r: Option<String>)
        ensures
            r == self.metadata.logo,
    {
        clone_opt_string(&self.metadata.logo)
    }

    pub fn get_canister_custodians(&self) -> (r: Vec<AccountId>)
        ensures
            r@.len() == self.metadata.custodians@.len(),
            forall|i: int|
                0 <= i < r@.len() ==> (#[trigger] r@[i])@ == self.metadata.custodians@[i]@,
    {
        clone_accounts(&self.metadata.custodians)
    }

    pub fn get_canister_supply(&self) -> (r: u64)
        ensures
            r == self.stats.total_supply,
    {
        self.stats.total_supply
    }

    pub fn get_total_unique_holders(&self) -> (r: u64)
        ensures
            r == self.stats.total_unique_holders,
    {
        self.stats.total_unique_holders
    }

    pub fn get_canister_cycles(&self) -> (r: u64)
        ensures
            r == self.stats.cycles,
    {
        self.stats.cycles
    }

    /// Replaces the canister name; custodians only.
    pub fn set_canister_name(&mut self, caller: &AccountId, name: Option<String>) -> (r: Result<
        (),
        CanisterError,
    >)
        requires
            old(self).wf(),
        ensures
            final(self).wf(),
            !old(self).is_custodian(caller@) ==> r == Err::<(), CanisterError>(
                CanisterError::NotCustodian,
            ) && *final(self) == *old(self),
            old(self).is_custodian(caller@) ==> {
                &&& r == Ok::<(), CanisterError>(())
                &&& final(self).metadata.name == name
                &&& final(self).metadata.symbol == old(self).metadata.symbol
                &&& final(self).metadata.logo == old(self).metadata.logo
                &&& final(self).metadata.custodians == old(self).metadata.custodians
                &&& final(self).tokens == old(self).tokens
                &&& final(self).owners == old(self).owners
                &&& final(self).assets == old(self).assets
                &&& final(self).stats == old(self).stats
            },
    {
        if let Err(e) = self.authorize(caller) {
            return Err(e);
        }
        self.metadata.name = name;
        proof {
            Self::lemma_wf_core(*old(self), *self);
        }
        Ok(())
    }

    /// Replaces the canister symbol; custodians only.
    pub fn set_canister_symbol(&mut self, caller: &AccountId, symbol: Option<String>) -> (r: Result<
        (),
        CanisterError,
    >)
        requires
            old(self).wf(),
        ensures
            final(self).wf(),
            !old(self).is_custodian(caller@) ==> r == Err::<(), CanisterError>(
                CanisterError::NotCustodian,
            ) && *final(self) == *old(self),
            old(self).is_custodian(caller@) ==> {
                &&& r == Ok::<(), CanisterError>(())
                &&& final(self).metadata.symbol == symbol
                &&& final(self).metadata.name == old(self).metadata.name
                &&& final(self).metadata.logo == old(self).metadata.logo
                &&& final(self).metadata.custodians == old(self).metadata.custodians
                &&& final(self).tokens == old(self).tokens
                &&& final(self).owners == old(self).owners
                &&& final(self).assets == old(self).assets
                &&& final(self).stats == old(self).stats
            },
    {
        if let Err(e) = self.authorize(caller) {
            return Err(e);
        }
        self.metadata.symbol = symbol;
        proof {
            Self::lemma_wf_core(*old(self), *self);
        }
        Ok(())
    }

    /// Replaces the canister logo; custodians only.
    pub fn set_canister_logo(&mut self, caller: &AccountId, logo: Option<String>) -> (r: Result<
        (),
        CanisterError,
    >)
        requires
            old(self).wf(),
        ensures
            final(self).wf(),
            !old(self).is_custodian(caller@) ==> r == Err::<(), CanisterError>(
                CanisterError::NotCustodian,
            ) && *final(self) == *old(self),
            old(self).is_custodian(caller@) ==> {
                &&& r == Ok::<(), CanisterError>(())
                &&& final(self).metadata.logo == logo
                &&& final(self).metadata.name == old(self).metadata.name
                &&& final(self).metadata.symbol == old(self).metadata.symbol
                &&& final(self).metadata.custodians == old(self).metadata.custodians
                &&& final(self).tokens == old(self).tokens
                &&& final(self).owners == old(self).owners
                &&& final(self).assets == old(self).assets
                &&& final(self).stats == old(self).stats
            },
    {
        if let Err(e) = self.authorize(caller) {
            return Err(e);
        }
        self.metadata.logo = logo;
        proof {
            Self::lemma_wf_core(*old(self), *self);
        }
        Ok(())
    }

    /// Replaces the custodian set; custodians only.
    pub fn set_canister_custodians(&mut self, caller: &AccountId, custodians: Vec<AccountId>) -> (r:
        Result<(), CanisterError>)
        requires
            old(self).wf(),
        ensures
            final(self).wf(),
            !old(self).is_custodian(caller@) ==> r == Err::<(), CanisterError>(
                CanisterError::NotCustodian,
            ) && *final(self) == *old(self),
            old(self).is_custodian(caller@) ==> {
                &&& r == Ok::<(), CanisterError>(())
                &&& final(self).metadata.custodians == custodians
                &&& final(self).metadata.name == old(self).metadata.name
                &&& final(self).metadata.symbol == old(self).metadata.symbol
                &&& final(self).metadata.logo == old(self).metadata.logo
                &&& final(self).tokens == old(self).tokens
                &&& final(self).owners == old(self).owners
                &&& final(self).assets == old(self).assets
                &&& final(self).stats == old(self).stats
            },
    {
        if let Err(e) = self.authorize(caller) {
            return Err(e);
        }
        self.metadata.custodians = custodians;
        proof {
            Self::lemma_wf_core(*old(self), *self);
        }
        Ok(())
    }

    /// Frame lemma: replacing one token in place, keeping its identifier and
    /// asset link, leaves every token-level accessor elsewhere unchanged.
    proof fn lemma_token_update(pre: TokenLedger, post: TokenLedger, ti: int)
        requires
            pre.tokens_unique(),
            0 <= ti < pre.tokens@.len(),
            post.tokens@ == pre.tokens@.update(ti, post.tokens@[ti]),
            post.tokens@[ti].id == pre.tokens@[ti].id,
            post.tokens@[ti].asset_id == pre.tokens@[ti].asset_id,
        ensures
            post.tokens_unique(),
            forall|t: u64| post.has_token(t) == pre.has_token(t),
            forall|t: u64| pre.has_token(t) ==> post.token_idx(t) == pre.token_idx(t),
            forall|t: u64|
                pre.has_token(t) && t != pre.tokens@[ti].id ==> post.token_of(t) == pre.token_of(
                    t,
                ),
            forall|aid: u64| post.asset_tokenized(aid) == pre.asset_tokenized(aid),
            post.has_token(pre.tokens@[ti].id),
            post.token_of(pre.tokens@[ti].id) == post.tokens@[ti],
            pre.token_idx(pre.tokens@[ti].id) == ti,
    {
        assert forall|i: int, j: int|
            0 <= i < j < post.tokens@.len() implies (#[trigger] post.tokens@[i]).id != (
        #[trigger] post.tokens@[j]).id by {
            assert(pre.tokens@[i].id == post.tokens@[i].id);
            assert(pre.tokens@[j].id == post.tokens@[j].id);
        }
        assert forall|t: u64| post.has_token(t) == pre.has_token(t) by {
            if post.has_token(t) {
                let i = post.token_idx(t);
                assert(pre.tokens@[i].id == t);
            }
            if pre.has_token(t) {
                let i = pre.token_idx(t);
                assert(post.tokens@[i].id == t);
            }
        }
        assert forall|t: u64| pre.has_token(t) implies post.token_idx(t) == pre.token_idx(t) by {
            let i = pre.token_idx(t);
            assert(post.tokens@[i].id == t);
            pre.lemma_token_at(i);
            post.lemma_token_at(i);
        }
        assert forall|aid: u64| post.asset_tokenized(aid) == pre.asset_tokenized(aid) by {
            if post.asset_tokenized(aid) {
                let i = choose|i: int|
                    0 <= i < post.tokens@.len() && (#[trigger] post.tokens@[i]).asset_id == aid;
                assert(pre.tokens@[i].asset_id == aid);
            }
            if pre.asset_tokenized(aid) {
                let i = choose|i: int|
                    0 <= i < pre.tokens@.len() && (#[trigger] pre.tokens@[i]).asset_id == aid;
                assert(post.tokens@[i].asset_id == aid);
            }
        }
        pre.lemma_token_at(ti);
        post.lemma_token_at(ti);
    }

    /// Frame lemma: replacing one asset in place, keeping its identifier,
    /// leaves every other asset unchanged.
    proof fn lemma_asset_update(pre: TokenLedger, post: TokenLedger, ai: int)
        requires
            pre.assets_sequential(),
            0 <= ai < pre.assets@.len(),
            post.assets@ == pre.assets@.update(ai, post.assets@[ai]),
            post.assets@[ai].id == pre.assets@[ai].id,
        ensures
            post.assets_sequential(),
            forall|aid: u64| post.has_asset(aid) == pre.has_asset(aid),
            forall|aid: u64|
                pre.has_asset(aid) && aid != pre.assets@[ai].id ==> post.asset_of(aid)
                    == pre.asset_of(aid),
            post.asset_of(pre.assets@[ai].id) == post.assets@[ai],
    {
        assert forall|i: int| 0 <= i < post.assets@.len() implies (#[trigger] post.assets@[i]).id
            == i + 1 by {
            if i != ai {
                assert(post.assets@[i] == pre.assets@[i]);
            }
        }
        assert(pre.assets@[ai].id == ai + 1);
    }

    /// Index of the token with identifier `t`, if any.
    fn token_find(&self, t: u64) -> (r: Option<usize>)
        ensures
            match r {
                Some(i) => i < self.tokens@.len() && self.tokens@[i as int].id == t,
                None => !self.has_token(t),
            },
    {
        let mut i: usize = 0;
        while i < self.tokens.len()
            invariant
                i <= self.tokens@.len(),
                forall|j: int| 0 <= j < i ==> (#[trigger] self.tokens@[j]).id != t,
            decreases self.tokens@.len() - i,
        {
            if self.tokens[i].id == t {
                return Some(i);
            }
            i = i + 1;
        }
        None
    }

    /// A cloned snapshot of one token's record.
    pub fn get_token_metadata(&self, token_id: u64) -> (r: Result<Token, NftError>)
        requires
            self.wf(),
        ensures
            self.has_token(token_id) ==> (r matches Ok(t) && token_eq(t, self.token_of(token_id))),
            !self.has_token(token_id) ==> r == Err::<Token, NftError>(NftError::TokenNotFound),
    {
        match self.token_find(token_id) {
            Some(i) => {
                proof {
                    self.lemma_token_at(i as int);
                }
                Ok(self.tokens[i].clone())
            },
            None => Err(NftError::TokenNotFound),
        }
    }

    /// A cloned snapshot of one token's balance table.
    pub fn get_token_owners(&self, token_id: u64) -> (r: Result<Vec<Holding>, NftError>)
        requires
            self.wf(),
        ensures
            self.has_token(token_id) ==> (r matches Ok(rows) && holdings_eq(
                rows@,
                self.token_of(token_id).ownership.entries@,
            )),
            !self.has_token(token_id) ==> r == Err::<Vec<Holding>, NftError>(
                NftError::TokenNotFound,
            ),
    {
        match self.token_find(token_id) {
            Some(i) => {
                proof {
                    self.lemma_token_at(i as int);
                }
                Ok(self.tokens[i].ownership.snapshot())
            },
            None => Err(NftError::TokenNotFound),
        }
    }

    /// Units of token `token_id` held by `account`; the account must hold a
    /// row on this token to be reported.
    pub fn balance_of(&self, token_id: u64, account: &AccountId) -> (r: Result<u64, NftError>)
        requires
            self.wf(),
        ensures
            !self.has_token(token_id) ==> r == Err::<u64, NftError>(NftError::TokenNotFound),
            self.has_token(token_id) && !self.token_of(token_id).ownership.has(account@) ==> r
                == Err::<u64, NftError>(NftError::OwnerNotFound),
            self.has_token(token_id) && self.token_of(token_id).ownership.has(account@) ==> (
            r matches Ok(n) && n == self.units_on(token_id, account@)),
    {
        match self.token_find(token_id) {
            Some(i) => {
                proof {
                    self.lemma_token_at(i as int);
                }
                if self.tokens[i].ownership.contains(account) {
                    Ok(self.tokens[i].ownership.units(account))
                } else {
                    Err(NftError::OwnerNotFound)
                }
            },
            None => Err(NftError::TokenNotFound),
        }
    }

    /// Whether `account` holds units of token `token_id`.
    pub fn is_stakeholder(&self, token_id: u64, account: &AccountId) -> (r: Result<bool, NftError>)
        requires
            self.wf(),
        ensures
            self.has_token(token_id) ==> r == Ok::<bool, NftError>(
                self.token_of(token_id).ownership.has(account@),
            ),
            !self.has_token(token_id) ==> r == Err::<bool, NftError>(NftError::TokenNotFound),
    {
        match self.token_find(token_id) {
            Some(i) => {
                proof {
                    self.lemma_token_at(i as int);
                }
                Ok(self.tokens[i].ownership.contains(account))
            },
            None => Err(NftError::TokenNotFound),
        }
    }

    /// How many tokens `account` holds units of.
    pub fn get_user_token_count(&self, account: &AccountId) -> (r: Result<u64, NftError>)
        requires
            self.wf(),
        ensures
            self.owners.has_account(account@) ==> (r matches Ok(n) && n == self.owners.tokens_of(
                account@,
            ).len()),
            !self.owners.has_account(account@) ==> r == Err::<u64, NftError>(NftError::OwnerNotFound),
    {
        match self.owners.count_of(account) {
            Some(n) => Ok(n as u64),
            None => Err(NftError::OwnerNotFound),
        }
    }

    /// The identifiers of the tokens `account` holds units of.
    pub fn get_tokens_by_owner(&self, account: &AccountId) -> (r: Result<Vec<u64>, NftError>)
        requires
            self.wf(),
        ensures
            self.owners.has_account(account@) ==> (r matches Ok(ids) && ids@
                == self.owners.tokens_of(account@)),
            !self.owners.has_account(account@) ==> r == Err::<Vec<u64>, NftError>(
                NftError::OwnerNotFound,
            ),
    {
        match self.owners.ids_of(account) {
            Some(ids) => Ok(ids),
            None => Err(NftError::OwnerNotFound),
        }
    }

    /// Cloned records of every token `account` holds units of.
    pub fn get_tokens_metadata_by_owner(&self, account: &AccountId) -> (r: Result<
        Vec<Token>,
        NftError,
    >)
        requires
            self.wf(),
        ensures
            self.owners.has_account(account@) ==> (r matches Ok(ts) && ts@.len()
                == self.owners.tokens_of(account@).len() && (forall|i: int|
                0 <= i < ts@.len() ==> token_eq(
                    #[trigger] ts@[i],
                    self.token_of(self.owners.tokens_of(account@)[i]),
                ))),
            !self.owners.has_account(account@) ==> r == Err::<Vec<Token>, NftError>(
                NftError::OwnerNotFound,
            ),
    {
        let ids = match self.owners.ids_of(account) {
            Some(ids) => ids,
            None => { return Err(NftError::OwnerNotFound) },
        };
        let mut out: Vec<Token> = Vec::new();
        let mut i: usize = 0;
        while i < ids.len()
            invariant
                self.wf(),
                i <= ids@.len(),
                out@.len() == i,
                self.owners.has_account(account@),
                ids@ == self.owners.tokens_of(account@),
                forall|j: int|
                    0 <= j < i ==> token_eq(
                        #[trigger] out@[j],
                        self.token_of(self.owners.tokens_of(account@)[j]),
                    ),
            decreases ids@.len() - i,
        {
            proof {
                assert(self.owners.tokens_of(account@).contains(ids@[i as int]));
                assert(self.owners.has_pair(account@, ids@[i as int]));
            }
            let ti = match self.token_find(ids[i]) {
                Some(ti) => ti,
                None => {
                    proof {
                        assert(false);
                    }
                    0
                },
            };
            proof {
                self.lemma_token_at(ti as int);
            }
            out.push(self.tokens[ti].clone());
            i = i + 1;
        }
        Ok(out)
    }

    /// The transaction counter after one more recorded transaction.
    pub open spec fn bumped(n: u64) -> u64 {
        if n == u64::MAX {
            n
        } else {
            (n + 1) as u64
        }
    }

    /// Equality of everything in a token but its balance table.
    pub open spec fn same_token_meta(a: Token, b: Token) -> bool {
        &&& a.id == b.id
        &&& a.asset_id == b.asset_id
        &&& a.properties == b.properties
        &&& a.burned == b.burned
        &&& a.burned_at == b.burned_at
        &&& a.burned_by == b.burned_by
        &&& a.minted_at == b.minted_at
        &&& a.minted_by == b.minted_by
    }

    /// Grants `num_units` of token `token_id` to `stakeholder` out of the
    /// linked asset's available pool, shrinking the pool by the same amount.
    /// Asking for more than is available fails with `UnitsNotAvailable` and
    /// changes nothing.
    pub fn allocate(
        &mut self,
        caller: &AccountId,
        token_id: u64,
        stakeholder: &AccountId,
        num_units: u64,
    ) -> (r: Result<Result<(), NftError>, CanisterError>)
        requires
            old(self).wf(),
        ensures
            final(self).wf(),
            !old(self).is_custodian(caller@) ==> r == Err::<Result<(), NftError>, CanisterError>(
                CanisterError::NotCustodian,
            ) && *final(self) == *old(self),
            old(self).is_custodian(caller@) && !old(self).has_token(token_id) ==> r == Ok::<
                Result<(), NftError>,
                CanisterError,
            >(Err(NftError::TokenNotFound)) && *final(self) == *old(self),
            old(self).is_custodian(caller@) && old(self).has_token(token_id) && old(self).token_of(
                token_id,
            ).burned ==> (r matches Ok(inner) && inner matches Err(e) && e matches NftError::Other(
                m,
            ) && m@ == "token is burned"@) && *final(self) == *old(self),
            old(self).is_custodian(caller@) && old(self).has_token(token_id) && !old(
                self,
            ).token_of(token_id).burned && num_units > old(self).asset_of(
                old(self).token_of(token_id).asset_id,
            ).units_available ==> r == Ok::<Result<(), NftError>, CanisterError>(
                Err(NftError::UnitsNotAvailable),
            ) && *final(self) == *old(self),
            old(self).is_custodian(caller@) && old(self).has_token(token_id) && !old(
                self,
            ).token_of(token_id).burned && num_units <= old(self).asset_of(
                old(self).token_of(token_id).asset_id,
            ).units_available ==> {
                let aid = old(self).token_of(token_id).asset_id;
                &&& r == Ok::<Result<(), NftError>, CanisterError>(Ok(()))
                &&& final(self).has_token(token_id)
                &&& final(self).units_on(token_id, stakeholder@) == old(self).units_on(
                    token_id,
                    stakeholder@,
                ) + num_units
                &&& forall|b: Seq<u8>|
                    b != stakeholder@ ==> final(self).units_on(token_id, b) == old(self).units_on(
                        token_id,
                        b,
                    )
                &&& Self::same_token_meta(final(self).token_of(token_id), old(self).token_of(
                    token_id,
                ))
                &&& forall|t: u64| final(self).has_token(t) == old(self).has_token(t)
                &&& forall|t: u64|
                    old(self).has_token(t) && t != token_id ==> final(self).token_of(t) == old(
                        self,
                    ).token_of(t)
                &&& final(self).asset_of(aid) == (AssetDescriptor {
                    units_available: (old(self).asset_of(aid).units_available - num_units) as u64,
                    ..old(self).asset_of(aid)
                })
                &&& forall|a2: u64|
                    old(self).has_asset(a2) && a2 != aid ==> final(self).asset_of(a2) == old(
                        self,
                    ).asset_of(a2)
                &&& final(self).metadata == old(self).metadata
                &&& final(self).stats == (Stats {
                    total_unique_holders: (old(self).stats.total_unique_holders + (
                    if num_units > 0 && !old(self).owners.has_account(stakeholder@) {
                        1int
                    } else {
                        0int
                    })) as u64,
                    total_transactions: Self::bumped(old(self).stats.total_transactions),
                    ..old(self).stats
                })
            },
    {
        if let Err(e) = self.authorize(caller) {
            return Err(e);
        }
        let ti = match self.token_find(token_id) {
            Some(i) => i,
            None => { return Ok(Err(NftError::TokenNotFound)) },
        };
        proof {
            old(self).lemma_token_at(ti as int);
        }
        if self.tokens[ti].burned {
            return Ok(Err(NftError::Other(String::from_str("token is burned"))));
        }
        let aid = self.tokens[ti].asset_id;
        proof {
            assert(old(self).has_asset(old(self).tokens@[ti as int].asset_id));
            assert(self.assets.len() == self.assets@.len());
            assert(1 <= aid && aid <= self.assets@.len());
        }
        let ai = (aid - 1) as usize;
        proof {
            assert(ai as int == aid - 1);
        }
        let avail = self.assets[ai].units_available;
        if num_units > avail {
            return Ok(Err(NftError::UnitsNotAvailable));
        }
        let ghost pre = *old(self);
        // Move units into the balance table.
        let mut tok = self.tokens.remove(ti);
        proof {
            assert(pre.tokens@[ti as int].ownership.wf());
            tok.ownership.lemma_units_bounds(stakeholder@);
            assert(pre.tokens@[ti as int].ownership.total() == pre.asset_of(
                aid,
            ).total_units - pre.asset_of(aid).units_available);
            assert(avail == pre.asset_of(aid).units_available);
        }
        let created = tok.ownership.credit(stakeholder, num_units);
        self.tokens.insert(ti, tok);
        proof {
            assert(self.tokens@ =~= pre.tokens@.update(ti as int, self.tokens@[ti as int]));
        }
        // Shrink the asset's available pool in the same step.
        let a = self.assets[ai];
        self.assets.set(
            ai,
            AssetDescriptor {
                id: a.id,
                price_per_unit: a.price_per_unit,
                total_units: a.total_units,
                units_available: avail - num_units,
            },
        );
        proof {
            assert(self.assets@ =~= pre.assets@.update(ai as int, self.assets@[ai as int]));
        }
        // Keep the owner index and counters in step.
        let ghost mid = *self;
        if created {
            proof {
                assert(pre.owners.has_pair(stakeholder@, token_id) <==> (pre.has_token(token_id)
                    && pre.token_of(token_id).ownership.has(stakeholder@)));
            }
            let added = self.owners.add(stakeholder, token_id);
            if added {
                proof {
                    assert(self.owners.entries.len() == self.owners.entries@.len());
                    assert(self.stats.total_unique_holders < u64::MAX);
                }
                self.stats.total_unique_holders = self.stats.total_unique_holders + 1;
            }
        }
        if self.stats.total_transactions != u64::MAX {
            self.stats.total_transactions = self.stats.total_transactions + 1;
        }
        proof {
            let post = *self;
            Self::lemma_token_update(pre, post, ti as int);
            Self::lemma_asset_update(pre, post, ai as int);
            lemma_count_update(pre.tokens@, ti as int, post.tokens@[ti as int]);
            assert(pre.owners.has_pair(stakeholder@, token_id) <==> (pre.has_token(token_id)
                && pre.token_of(token_id).ownership.has(stakeholder@)));
            assert(post.wf_tokens()) by {
                assert forall|i: int|
                    0 <= i < post.tokens@.len() implies (#[trigger] post.tokens@[i]).ownership.wf()
                        && (post.tokens@[i].burned ==> post.tokens@[i].ownership.entries@.len()
                        == 0) && post.has_asset(post.tokens@[i].asset_id) by {
                    if i != ti as int {
                        assert(post.tokens@[i] == pre.tokens@[i]);
                    }
                    assert(pre.has_asset(pre.tokens@[i].asset_id));
                }
                assert forall|i: int, j: int|
                    0 <= i < j < post.tokens@.len() implies (#[trigger] post.tokens@[i]).asset_id
                    != (#[trigger] post.tokens@[j]).asset_id by {
                    assert(pre.tokens@[i].asset_id == post.tokens@[i].asset_id);
                    assert(pre.tokens@[j].asset_id == post.tokens@[j].asset_id);
                }
            }
            assert(post.conservation()) by {
                assert forall|i: int|
                    0 <= i < post.tokens@.len() && !(#[trigger] post.tokens@[i]).burned implies post.tokens@[i].ownership.total()
                    == post.asset_of(post.tokens@[i].asset_id).total_units - post.asset_of(
                    post.tokens@[i].asset_id,
                ).units_available by {
                    assert(pre.has_asset(pre.tokens@[i].asset_id));
                    if i == ti as int {
                        assert(post.asset_of(aid) == post.assets@[ai as int]);
                    } else {
                        assert(post.tokens@[i] == pre.tokens@[i]);
                        assert(pre.tokens@[i].asset_id != aid) by {
                            assert(pre.tokens@[ti as int].asset_id == aid);
                        }
                        assert(post.asset_of(post.tokens@[i].asset_id) == pre.asset_of(
                            pre.tokens@[i].asset_id,
                        ));
                    }
                }
            }
            assert(post.wf_assets()) by {
                assert forall|i: int|
                    0 <= i < post.assets@.len() implies (#[trigger] post.assets@[i]).units_available
                    <= post.assets@[i].total_units by {
                    if i != ai as int {
                        assert(post.assets@[i] == pre.assets@[i]);
                    }
                }
                assert forall|i: int|
                    0 <= i < post.assets@.len() && !post.asset_tokenized(
                        (#[trigger] post.assets@[i]).id,
                    ) implies post.assets@[i].units_available == post.assets@[i].total_units by {
                    if i == ai as int {
                        assert(pre.tokens@[ti as int].asset_id == post.assets@[i].id);
                        assert(post.asset_tokenized(post.assets@[i].id)) by {
                            assert(post.tokens@[ti as int].asset_id == post.assets@[i].id);
                        }
                    } else {
                        assert(post.assets@[i] == pre.assets@[i]);
                        assert(!pre.asset_tokenized(pre.assets@[i].id));
                    }
                }
            }
            assert(post.index_consistent()) by {
                assert forall|b: Seq<u8>, t: u64| #![trigger post.owners.has_pair(b, t)]
                    post.owners.has_pair(b, t) <==> (post.has_token(t) && post.token_of(
                        t,
                    ).ownership.has(b)) by {
                    assert(pre.owners.has_pair(b, t) <==> (pre.has_token(t) && pre.token_of(
                        t,
                    ).ownership.has(b)));
                    if pre.has_token(t) {
                        assert(post.token_of(t) == if t == token_id {
                            post.tokens@[ti as int]
                        } else {
                            pre.token_of(t)
                        });
                    }
                }
            }
            assert(post.stats_ok());
        }
        Ok(Ok(()))
    }

    /// Moves `num_units` of token `token_id` from `sender` to `receiver`.
    /// The move is balance-conserving and atomic: it fails with the first
    /// applicable error and then changes nothing.
    #[verifier::rlimit(60)]
    pub fn trade(
        &mut self,
        caller: &AccountId,
        token_id: u64,
        sender: &AccountId,
        receiver: &AccountId,
        num_units: u64,
    ) -> (r: Result<Result<(), NftError>, CanisterError>)
        requires
            old(self).wf(),
        ensures
            final(self).wf(),
            !old(self).is_custodian(caller@) ==> r == Err::<Result<(), NftError>, CanisterError>(
                CanisterError::NotCustodian,
            ) && *final(self) == *old(self),
            old(self).is_custodian(caller@) && !old(self).has_token(token_id) ==> r == Ok::<
                Result<(), NftError>,
                CanisterError,
            >(Err(NftError::TokenNotFound)) && *final(self) == *old(self),
            old(self).is_custodian(caller@) && old(self).has_token(token_id) && old(self).token_of(
                token_id,
            ).burned ==> (r matches Ok(inner) && inner matches Err(e) && e matches NftError::Other(
                m,
            ) && m@ == "token is burned"@) && *final(self) == *old(self),
            old(self).is_custodian(caller@) && old(self).has_token(token_id) && !old(
                self,
            ).token_of(token_id).burned && sender@ == receiver@ ==> r == Ok::<
                Result<(), NftError>,
                CanisterError,
            >(Err(NftError::SelfTransfer)) && *final(self) == *old(self),
            old(self).is_custodian(caller@) && old(self).has_token(token_id) && !old(
                self,
            ).token_of(token_id).burned && sender@ != receiver@ && !old(self).token_of(
                token_id,
            ).ownership.has(sender@) ==> r == Ok::<Result<(), NftError>, CanisterError>(
                Err(NftError::OperatorNotFound),
            ) && *final(self) == *old(self),
            old(self).is_custodian(caller@) && old(self).has_token(token_id) && !old(
                self,
            ).token_of(token_id).burned && sender@ != receiver@ && old(self).token_of(
                token_id,
            ).ownership.has(sender@) && num_units > old(self).units_on(token_id, sender@) ==> r
                == Ok::<Result<(), NftError>, CanisterError>(Err(NftError::InsufficientUnits))
                && *final(self) == *old(self),
            old(self).is_custodian(caller@) && old(self).has_token(token_id) && !old(
                self,
            ).token_of(token_id).burned && sender@ != receiver@ && old(self).token_of(
                token_id,
            ).ownership.has(sender@) && num_units <= old(self).units_on(token_id, sender@) ==> {
                &&& r == Ok::<Result<(), NftError>, CanisterError>(Ok(()))
                &&& final(self).units_on(token_id, sender@) == old(self).units_on(
                    token_id,
                    sender@,
                ) - num_units
                &&& final(self).units_on(token_id, receiver@) == old(self).units_on(
                    token_id,
                    receiver@,
                ) + num_units
                &&& final(self).units_on(token_id, sender@) + final(self).units_on(
                    token_id,
                    receiver@,
                ) == old(self).units_on(token_id, sender@) + old(self).units_on(
                    token_id,
                    receiver@,
                )
                &&& forall|b: Seq<u8>|
                    b != sender@ && b != receiver@ ==> final(self).units_on(token_id, b) == old(
                        self,
                    ).units_on(token_id, b)
                &&& Self::same_token_meta(final(self).token_of(token_id), old(self).token_of(
                    token_id,
                ))
                &&& forall|t: u64| final(self).has_token(t) == old(self).has_token(t)
                &&& forall|t: u64|
                    old(self).has_token(t) && t != token_id ==> final(self).token_of(t) == old(
                        self,
                    ).token_of(t)
                &&& final(self).assets == old(self).assets
                &&& final(self).metadata == old(self).metadata
                &&& final(self).stats == (Stats {
                    total_unique_holders: (old(self).stats.total_unique_holders - (
                    if old(self).units_on(token_id, sender@) == num_units && old(
                        self,
                    ).owners.tokens_of(sender@).len() == 1 {
                        1int
                    } else {
                        0int
                    }) + (if num_units > 0 && !old(self).owners.has_account(receiver@) {
                        1int
                    } else {
                        0int
                    })) as u64,
                    total_transactions: Self::bumped(old(self).stats.total_transactions),
                    ..old(self).stats
                })
            },
    {
        if let Err(e) = self.authorize(caller) {
            return Err(e);
        }
        let ti = match self.token_find(token_id) {
            Some(i) => i,
            None => { return Ok(Err(NftError::TokenNotFound)) },
        };
        proof {
            old(self).lemma_token_at(ti as int);
        }
        if self.tokens[ti].burned {
            return Ok(Err(NftError::Other(String::from_str("token is burned"))));
        }
        if *sender == *receiver {
            return Ok(Err(NftError::SelfTransfer));
        }
        proof {
            assert(old(self).tokens@[ti as int].ownership.wf());
        }
        if !self.tokens[ti].ownership.contains(sender) {
            return Ok(Err(NftError::OperatorNotFound));
        }
        let units_s = self.tokens[ti].ownership.units(sender);
        if num_units > units_s {
            return Ok(Err(NftError::InsufficientUnits));
        }
        let ghost pre = *old(self);
        // Move the units between the two balance rows in one step.
        let mut tok = self.tokens.remove(ti);
        let removed = tok.ownership.debit(sender, num_units);
        proof {
            pre.tokens@[ti as int].ownership.lemma_pair_bounds(receiver@, sender@);
            assert(pre.tokens@[ti as int].ownership.total() == pre.asset_of(
                pre.tokens@[ti as int].asset_id,
            ).total_units - pre.asset_of(pre.tokens@[ti as int].asset_id).units_available) by {
                assert(!pre.tokens@[ti as int].burned);
            }
        }
        let created = tok.ownership.credit(receiver, num_units);
        self.tokens.insert(ti, tok);
        proof {
            assert(self.tokens@ =~= pre.tokens@.update(ti as int, self.tokens@[ti as int]));
        }
        // Keep the owner index and counters in step.
        if removed {
            proof {
                assert(pre.owners.has_pair(sender@, token_id) <==> (pre.has_token(token_id)
                    && pre.token_of(token_id).ownership.has(sender@)));
            }
            let deleted = self.owners.remove(sender, token_id);
            if deleted {
                proof {
                    assert(self.stats.total_unique_holders > 0);
                }
                self.stats.total_unique_holders = self.stats.total_unique_holders - 1;
            }
        }
        if created {
            proof {
                assert(pre.owners.has_pair(receiver@, token_id) <==> (pre.has_token(token_id)
                    && pre.token_of(token_id).ownership.has(receiver@)));
            }
            let added = self.owners.add(receiver, token_id);
            if added {
                proof {
                    assert(self.owners.entries.len() == self.owners.entries@.len());
                    assert(self.stats.total_unique_holders < u64::MAX);
                }
                self.stats.total_unique_holders = self.stats.total_unique_holders + 1;
            }
        }
        if self.stats.total_transactions != u64::MAX {
            self.stats.total_transactions = self.stats.total_transactions + 1;
        }
        proof {
            let post = *self;
            Self::lemma_token_update(pre, post, ti as int);
            lemma_count_update(pre.tokens@, ti as int, post.tokens@[ti as int]);
            assert(pre.owners.has_pair(sender@, token_id) <==> (pre.has_token(token_id)
                && pre.token_of(token_id).ownership.has(sender@)));
            assert(pre.owners.has_pair(receiver@, token_id) <==> (pre.has_token(token_id)
                && pre.token_of(token_id).ownership.has(receiver@)));
            assert(post.wf_tokens()) by {
                assert forall|i: int|
                    0 <= i < post.tokens@.len() implies (#[trigger] post.tokens@[i]).ownership.wf()
                        && (post.tokens@[i].burned ==> post.tokens@[i].ownership.entries@.len()
                        == 0) && post.has_asset(post.tokens@[i].asset_id) by {
                    if i != ti as int {
                        assert(post.tokens@[i] == pre.tokens@[i]);
                    }
                    assert(pre.has_asset(pre.tokens@[i].asset_id));
                }
                assert forall|i: int, j: int|
                    0 <= i < j < post.tokens@.len() implies (#[trigger] post.tokens@[i]).asset_id
                    != (#[trigger] post.tokens@[j]).asset_id by {
                    assert(pre.tokens@[i].asset_id == post.tokens@[i].asset_id);
                    assert(pre.tokens@[j].asset_id == post.tokens@[j].asset_id);
                }
            }
            assert(post.conservation()) by {
                assert forall|i: int|
                    0 <= i < post.tokens@.len() && !(#[trigger] post.tokens@[i]).burned implies post.tokens@[i].ownership.total()
                    == post.asset_of(post.tokens@[i].asset_id).total_units - post.asset_of(
                    post.tokens@[i].asset_id,
                ).units_available by {
                    if i != ti as int {
                        assert(post.tokens@[i] == pre.tokens@[i]);
                    }
                    assert(post.assets@ == pre.assets@);
                }
            }
            assert(post.wf_assets()) by {
                assert forall|i: int|
                    0 <= i < post.assets@.len() && !post.asset_tokenized(
                        (#[trigger] post.assets@[i]).id,
                    ) implies post.assets@[i].units_available == post.assets@[i].total_units by {
                    assert(!pre.asset_tokenized(pre.assets@[i].id));
                }
            }
            assert(post.index_consistent()) by {
                assert forall|b: Seq<u8>, t: u64| #![trigger post.owners.has_pair(b, t)]
                    post.owners.has_pair(b, t) <==> (post.has_token(t) && post.token_of(
                        t,
                    ).ownership.has(b)) by {
                    assert(pre.owners.has_pair(b, t) <==> (pre.has_token(t) && pre.token_of(
                        t,
                    ).ownership.has(b)));
                    if pre.has_token(t) {
                        assert(post.token_of(t) == if t == token_id {
                            post.tokens@[ti as int]
                        } else {
                            pre.token_of(t)
                        });
                    }
                }
            }
            assert(post.stats_ok());
        }
        Ok(Ok(()))
    }

    /// Frame lemma: appending a token with a fresh identifier leaves every
    /// existing token's accessors unchanged.
    proof fn lemma_token_push(pre: TokenLedger, post: TokenLedger)
        requires
            pre.tokens_unique(),
            post.tokens@ == pre.tokens@.push(post.tokens@.last()),
            !pre.has_token(post.tokens@.last().id),
        ensures
            post.tokens_unique(),
            forall|t: u64|
                post.has_token(t) == (pre.has_token(t) || t == post.tokens@.last().id),
            forall|t: u64|
                pre.has_token(t) && t != post.tokens@.last().id ==> post.token_of(t)
                    == pre.token_of(t),
            post.has_token(post.tokens@.last().id),
            post.token_of(post.tokens@.last().id) == post.tokens@.last(),
            forall|aid: u64|
                post.asset_tokenized(aid) == (pre.asset_tokenized(aid) || aid
                    == post.tokens@.last().asset_id),
    {
        let last = post.tokens@.len() - 1;
        let newid = post.tokens@.last().id;
        assert forall|i: int, j: int|
            0 <= i < j < post.tokens@.len() implies (#[trigger] post.tokens@[i]).id != (
        #[trigger] post.tokens@[j]).id by {
            if j == last {
                assert(post.tokens@[i] == pre.tokens@[i]);
                if pre.tokens@[i].id == newid {
                    assert(pre.has_token(newid));
                }
            } else {
                assert(pre.tokens@[i].id == post.tokens@[i].id);
                assert(pre.tokens@[j].id == post.tokens@[j].id);
            }
        }
        assert forall|t: u64|
            post.has_token(t) == (pre.has_token(t) || t == newid) by {
            if post.has_token(t) {
                let i = post.token_idx(t);
                if i != last {
                    assert(pre.tokens@[i].id == t);
                }
            }
            if pre.has_token(t) {
                let i = pre.token_idx(t);
                assert(post.tokens@[i].id == t);
            }
            if t == newid {
                assert(post.tokens@[last].id == t);
            }
        }
        post.lemma_token_at(last);
        assert forall|t: u64|
            pre.has_token(t) && t != newid implies post.token_of(t) == pre.token_of(t) by {
            let i = pre.token_idx(t);
            pre.lemma_token_at(i);
            assert(post.tokens@[i].id == t);
            post.lemma_token_at(i);
        }
        assert forall|aid: u64|
            post.asset_tokenized(aid) == (pre.asset_tokenized(aid) || aid
                == post.tokens@.last().asset_id) by {
            if post.asset_tokenized(aid) {
                let i = choose|i: int|
                    0 <= i < post.tokens@.len() && (#[trigger] post.tokens@[i]).asset_id == aid;
                if i != last {
                    assert(pre.tokens@[i].asset_id == aid);
                }
            }
            if pre.asset_tokenized(aid) {
                let i = choose|i: int|
                    0 <= i < pre.tokens@.len() && (#[trigger] pre.tokens@[i]).asset_id == aid;
                assert(post.tokens@[i].asset_id == aid);
            }
            if aid == post.tokens@.last().asset_id {
                assert(post.tokens@[last].asset_id == aid);
            }
        }
    }

    /// Index of some token bound to asset `aid`, if any.
    fn find_token_of_asset(&self, aid: u64) -> (r: Option<usize>)
        ensures
            match r {
                Some(i) => i < self.tokens@.len() && self.tokens@[i as int].asset_id == aid,
                None => !self.asset_tokenized(aid),
            },
    {
        let mut i: usize = 0;
        while i < self.tokens.len()
            invariant
                i <= self.tokens@.len(),
                forall|j: int| 0 <= j < i ==> (#[trigger] self.tokens@[j]).asset_id != aid,
            decreases self.tokens@.len() - i,
        {
            if self.tokens[i].asset_id == aid {
                return Some(i);
            }
            i = i + 1;
        }
        None
    }

    /// The identifier a mint call will use: the explicit one when supplied,
    /// else the next sequential value.
    pub open spec fn minted_id(self, token_id: Option<u64>) -> u64 {
        match token_id {
            Option::Some(i) => i,
            Option::None => (self.stats.total_supply + 1) as u64,
        }
    }

    /// Creates a token bound to asset `asset_id` and seeds its balance table
    /// with `requested_units` for `target_owner` (empty when zero), taking
    /// those units out of the asset's available pool.
    ///
    /// Identifier policy: an explicit identifier is accepted as supplied;
    /// otherwise one more than the current total supply is assigned.  A
    /// collision with a live or burned token fails with `ExistedNFT`.  Each
    /// asset can be tokenized at most once, ever.
    pub fn mint(
        &mut self,
        caller: &AccountId,
        target_owner: &AccountId,
        token_id: Option<u64>,
        asset_id: u64,
        properties: Vec<Property>,
        requested_units: u64,
        now: u64,
    ) -> (r: Result<Result<u64, NftError>, CanisterError>)
        requires
            old(self).wf(),
            token_id is None ==> old(self).stats.total_supply < u64::MAX,
        ensures
            final(self).wf(),
            !old(self).is_custodian(caller@) ==> r == Err::<Result<u64, NftError>, CanisterError>(
                CanisterError::NotCustodian,
            ) && *final(self) == *old(self),
            old(self).is_custodian(caller@) && old(self).has_token(
                old(self).minted_id(token_id),
            ) ==> r == Ok::<Result<u64, NftError>, CanisterError>(Err(NftError::ExistedNFT))
                && *final(self) == *old(self),
            old(self).is_custodian(caller@) && !old(self).has_token(old(self).minted_id(token_id))
                && !old(self).has_asset(asset_id) ==> (r matches Ok(inner) && inner matches Err(e)
                && e matches NftError::Other(m) && m@ == "space not found"@) && *final(self)
                == *old(self),
            old(self).is_custodian(caller@) && !old(self).has_token(old(self).minted_id(token_id))
                && old(self).has_asset(asset_id) && old(self).asset_tokenized(asset_id) ==> (
            r matches Ok(inner) && inner matches Err(e) && e matches NftError::Other(m) && m@
                == "space already tokenized"@) && *final(self) == *old(self),
            old(self).is_custodian(caller@) && !old(self).has_token(old(self).minted_id(token_id))
                && old(self).has_asset(asset_id) && !old(self).asset_tokenized(asset_id) && (old(
                self,
            ).asset_of(asset_id).units_available == 0 || requested_units > old(self).asset_of(
                asset_id,
            ).units_available) ==> r == Ok::<Result<u64, NftError>, CanisterError>(
                Err(NftError::UnitsNotAvailable),
            ) && *final(self) == *old(self),
            old(self).is_custodian(caller@) && !old(self).has_token(old(self).minted_id(token_id))
                && old(self).has_asset(asset_id) && !old(self).asset_tokenized(asset_id) && old(
                self,
            ).asset_of(asset_id).units_available > 0 && requested_units <= old(self).asset_of(
                asset_id,
            ).units_available ==> {
                let id = old(self).minted_id(token_id);
                &&& r == Ok::<Result<u64, NftError>, CanisterError>(Ok(id))
                &&& final(self).has_token(id)
                &&& final(self).token_of(id).id == id
                &&& final(self).token_of(id).asset_id == asset_id
                &&& final(self).token_of(id).burned == false
                &&& final(self).token_of(id).burned_at is None
                &&& final(self).token_of(id).burned_by is None
                &&& final(self).token_of(id).minted_at == now
                &&& final(self).token_of(id).minted_by@ == target_owner@
                &&& final(self).token_of(id).properties == properties
                &&& final(self).units_on(id, target_owner@) == requested_units
                &&& final(self).token_of(id).ownership.holder_count() == (if requested_units > 0 {
                    1int
                } else {
                    0int
                })
                &&& forall|t: u64|
                    final(self).has_token(t) == (old(self).has_token(t) || t == id)
                &&& forall|t: u64|
                    old(self).has_token(t) && t != id ==> final(self).token_of(t) == old(
                        self,
                    ).token_of(t)
                &&& final(self).asset_of(asset_id) == (AssetDescriptor {
                    units_available: (old(self).asset_of(asset_id).units_available
                        - requested_units) as u64,
                    ..old(self).asset_of(asset_id)
                })
                &&& forall|a2: u64|
                    old(self).has_asset(a2) && a2 != asset_id ==> final(self).asset_of(a2) == old(
                        self,
                    ).asset_of(a2)
                &&& final(self).owners.has_pair(target_owner@, id) == (requested_units > 0)
                &&& forall|b: Seq<u8>, s: u64|
                    !(b == target_owner@ && s == id) ==> final(self).owners.has_pair(b, s) == old(
                        self,
                    ).owners.has_pair(b, s)
                &&& final(self).metadata == old(self).metadata
                &&& final(self).stats == (Stats {
                    total_supply: (old(self).stats.total_supply + 1) as u64,
                    total_unique_holders: (old(self).stats.total_unique_holders + (
                    if requested_units > 0 && !old(self).owners.has_account(target_owner@) {
                        1int
                    } else {
                        0int
                    })) as u64,
                    total_transactions: Self::bumped(old(self).stats.total_transactions),
                    ..old(self).stats
                })
            },
    {
        if let Err(e) = self.authorize(caller) {
            return Err(e);
        }
        let id = match token_id {
            Option::Some(i) => i,
            Option::None => self.stats.total_supply + 1,
        };
        match self.token_find(id) {
            Some(_) => { return Ok(Err(NftError::ExistedNFT)) },
            None => {},
        }
        if !(1 <= asset_id && asset_id <= self.assets.len() as u64) {
            return Ok(Err(NftError::Other(String::from_str("space not found"))));
        }
        match self.find_token_of_asset(asset_id) {
            Some(_) => {
                return Ok(Err(NftError::Other(String::from_str("space already tokenized"))));
            },
            None => {},
        }
        proof {
            assert(self.assets.len() == self.assets@.len());
        }
        let ai = (asset_id - 1) as usize;
        proof {
            assert(ai as int == asset_id - 1);
        }
        let avail = self.assets[ai].units_available;
        if avail == 0 || requested_units > avail {
            return Ok(Err(NftError::UnitsNotAvailable));
        }
        let ghost pre = *old(self);
        // Build the token, its balance table seeded for the target owner.
        let mut ownership = HolderTable::new();
        let created = ownership.credit(target_owner, requested_units);
        let tok = Token {
            id,
            asset_id,
            ownership,
            properties,
            burned: false,
            burned_at: Option::None,
            burned_by: Option::None,
            minted_at: now,
            minted_by: target_owner.clone(),
        };
        self.tokens.push(tok);
        // Take the seeded units out of the asset's pool.
        let a = self.assets[ai];
        self.assets.set(
            ai,
            AssetDescriptor {
                id: a.id,
                price_per_unit: a.price_per_unit,
                total_units: a.total_units,
                units_available: avail - requested_units,
            },
        );
        proof {
            assert(self.assets@ =~= pre.assets@.update(ai as int, self.assets@[ai as int]));
        }
        // Keep the owner index and counters in step.
        if created {
            proof {
                assert(pre.owners.has_pair(target_owner@, id) <==> (pre.has_token(id)
                    && pre.token_of(id).ownership.has(target_owner@)));
            }
            let added = self.owners.add(target_owner, id);
            if added {
                proof {
                    assert(self.owners.entries.len() == self.owners.entries@.len());
                    assert(self.stats.total_unique_holders < u64::MAX);
                }
                self.stats.total_unique_holders = self.stats.total_unique_holders + 1;
            }
        }
        proof {
            lemma_count_push(pre.tokens@, self.tokens@.last());
            lemma_count_bounds(pre.tokens@);
            assert(self.tokens.len() == self.tokens@.len());
            assert(self.stats.total_supply < u64::MAX);
        }
        self.stats.total_supply = self.stats.total_supply + 1;
        if self.stats.total_transactions != u64::MAX {
            self.stats.total_transactions = self.stats.total_transactions + 1;
        }
        proof {
            let post = *self;
            Self::lemma_token_push(pre, post);
            Self::lemma_asset_update(pre, post, ai as int);
            assert(pre.owners.has_pair(target_owner@, id) <==> (pre.has_token(id) && pre.token_of(
                id,
            ).ownership.has(target_owner@)));
            assert(pre.assets@[ai as int].units_available == pre.assets@[ai as int].total_units)
                by {
                assert(!pre.asset_tokenized(pre.assets@[ai as int].id));
            }
            let last = post.tokens@.len() - 1;
            assert(post.wf_tokens()) by {
                assert forall|i: int|
                    0 <= i < post.tokens@.len() implies (#[trigger] post.tokens@[i]).ownership.wf()
                        && (post.tokens@[i].burned ==> post.tokens@[i].ownership.entries@.len()
                        == 0) && post.has_asset(post.tokens@[i].asset_id) by {
                    if i != last {
                        assert(post.tokens@[i] == pre.tokens@[i]);
                        assert(pre.has_asset(pre.tokens@[i].asset_id));
                    }
                }
                assert forall|i: int, j: int|
                    0 <= i < j < post.tokens@.len() implies (#[trigger] post.tokens@[i]).asset_id
                    != (#[trigger] post.tokens@[j]).asset_id by {
                    if j == last {
                        assert(post.tokens@[i] == pre.tokens@[i]);
                        if pre.tokens@[i].asset_id == asset_id {
                            assert(pre.asset_tokenized(asset_id));
                        }
                    } else {
                        assert(post.tokens@[i] == pre.tokens@[i]);
                        assert(post.tokens@[j] == pre.tokens@[j]);
                    }
                }
            }
            assert(post.conservation()) by {
                assert forall|i: int|
                    0 <= i < post.tokens@.len() && !(#[trigger] post.tokens@[i]).burned implies post.tokens@[i].ownership.total()
                    == post.asset_of(post.tokens@[i].asset_id).total_units - post.asset_of(
                    post.tokens@[i].asset_id,
                ).units_available by {
                    if i == last {
                        assert(post.asset_of(asset_id) == post.assets@[ai as int]);
                    } else {
                        assert(post.tokens@[i] == pre.tokens@[i]);
                        assert(pre.has_asset(pre.tokens@[i].asset_id));
                        assert(pre.tokens@[i].asset_id != asset_id) by {
                            if pre.tokens@[i].asset_id == asset_id {
                                assert(pre.asset_tokenized(asset_id));
                            }
                        }
                        assert(post.asset_of(post.tokens@[i].asset_id) == pre.asset_of(
                            pre.tokens@[i].asset_id,
                        ));
                    }
                }
            }
            assert(post.wf_assets()) by {
                assert forall|i: int|
                    0 <= i < post.assets@.len() implies (#[trigger] post.assets@[i]).units_available
                    <= post.assets@[i].total_units by {
                    if i != ai as int {
                        assert(post.assets@[i] == pre.assets@[i]);
                    }
                }
                assert forall|i: int|
                    0 <= i < post.assets@.len() && !post.asset_tokenized(
                        (#[trigger] post.assets@[i]).id,
                    ) implies post.assets@[i].units_available == post.assets@[i].total_units by {
                    if i == ai as int {
                        assert(post.tokens@[last].asset_id == post.assets@[i].id);
                        assert(post.asset_tokenized(post.assets@[i].id));
                    } else {
                        assert(post.assets@[i] == pre.assets@[i]);
                        assert(!pre.asset_tokenized(pre.assets@[i].id));
                    }
                }
            }
            assert(post.index_consistent()) by {
                assert forall|b: Seq<u8>, t: u64| #![trigger post.owners.has_pair(b, t)]
                    post.owners.has_pair(b, t) <==> (post.has_token(t) && post.token_of(
                        t,
                    ).ownership.has(b)) by {
                    assert(pre.owners.has_pair(b, t) <==> (pre.has_token(t) && pre.token_of(
                        t,
                    ).ownership.has(b)));
                    if t == id {
                        assert(post.token_of(id) == post.tokens@[last]);
                    } else if pre.has_token(t) {
                        assert(post.token_of(t) == pre.token_of(t));
                    }
                }
            }
            assert(post.stats_ok());
        }
        Ok(Ok(id))
    }

    /// Burns token `token_id`: clears its balance table (updating the owner
    /// index in the same atomic step), marks it terminally burned, stamps the
    /// audit fields, anonymizes the minter, and decrements the supply.  A
    /// second burn of the same token fails and changes nothing.
    pub fn burn(&mut self, caller: &AccountId, token_id: u64, now: u64) -> (r: Result<
        Result<(), NftError>,
        CanisterError,
    >)
        requires
            old(self).wf(),
        ensures
            final(self).wf(),
            !old(self).is_custodian(caller@) ==> r == Err::<Result<(), NftError>, CanisterError>(
                CanisterError::NotCustodian,
            ) && *final(self) == *old(self),
            old(self).is_custodian(caller@) && !old(self).has_token(token_id) ==> r == Ok::<
                Result<(), NftError>,
                CanisterError,
            >(Err(NftError::TokenNotFound)) && *final(self) == *old(self),
            old(self).is_custodian(caller@) && old(self).has_token(token_id) && old(self).token_of(
                token_id,
            ).burned ==> (r matches Ok(inner) && inner matches Err(e) && e matches NftError::Other(
                m,
            ) && m@ == "token is burned"@) && *final(self) == *old(self),
            old(self).is_custodian(caller@) && old(self).has_token(token_id) && !old(
                self,
            ).token_of(token_id).burned ==> {
                &&& r == Ok::<Result<(), NftError>, CanisterError>(Ok(()))
                &&& forall|t: u64| final(self).has_token(t) == old(self).has_token(t)
                &&& final(self).token_of(token_id).burned
                &&& final(self).token_of(token_id).ownership.entries@.len() == 0
                &&& final(self).token_of(token_id).burned_at == Option::Some(now)
                &&& (final(self).token_of(token_id).burned_by matches Some(c) && c@ == caller@)
                &&& final(self).token_of(token_id).minted_by@ == seq![4u8]
                &&& final(self).token_of(token_id).minted_at == old(self).token_of(
                    token_id,
                ).minted_at
                &&& final(self).token_of(token_id).id == token_id
                &&& final(self).token_of(token_id).asset_id == old(self).token_of(
                    token_id,
                ).asset_id
                &&& final(self).token_of(token_id).properties == old(self).token_of(
                    token_id,
                ).properties
                &&& forall|t: u64|
                    old(self).has_token(t) && t != token_id ==> final(self).token_of(t) == old(
                        self,
                    ).token_of(t)
                &&& final(self).assets == old(self).assets
                &&& final(self).metadata == old(self).metadata
                &&& forall|b: Seq<u8>| !final(self).owners.has_pair(b, token_id)
                &&& forall|b: Seq<u8>, s: u64|
                    s != token_id ==> final(self).owners.has_pair(b, s) == old(
                        self,
                    ).owners.has_pair(b, s)
                &&& forall|b: Seq<u8>|
                    final(self).owners.has_account(b) == (old(self).owners.has_account(b) && (old(
                        self,
                    ).owners.tokens_of(b).len() > 1 || !old(self).owners.has_pair(b, token_id)))
                &&& final(self).stats.total_supply == old(self).stats.total_supply - 1
                &&& final(self).stats.total_transactions == Self::bumped(
                    old(self).stats.total_transactions,
                )
                &&& final(self).stats.total_spaces == old(self).stats.total_spaces
                &&& final(self).stats.cycles == old(self).stats.cycles
                &&& final(self).stats.total_unique_holders == final(self).owners.count()
            },
    {
        if let Err(e) = self.authorize(caller) {
            return Err(e);
        }
        let ti = match self.token_find(token_id) {
            Some(i) => i,
            None => { return Ok(Err(NftError::TokenNotFound)) },
        };
        proof {
            old(self).lemma_token_at(ti as int);
        }
        if self.tokens[ti].burned {
            return Ok(Err(NftError::Other(String::from_str("token is burned"))));
        }
        let ghost pre = *old(self);
        // Walk the token's balance rows and retract each pair from the owner
        // index, keeping the unique-holder counter in step.
        let mut tok = self.tokens.remove(ti);
        let ghost rows = tok.ownership.entries@;
        proof {
            assert(pre.tokens@[ti as int].ownership.wf());
            assert forall|b: Seq<u8>|
                self.owners.has_pair(b, token_id) == (exists|q: int|
                    0 <= q < rows.len() && (#[trigger] rows[q]).key() == b) by {
                assert(pre.owners.has_pair(b, token_id) <==> (pre.has_token(token_id)
                    && pre.token_of(token_id).ownership.has(b)));
            }
        }
        let n = tok.ownership.entries.len();
        let mut p: usize = 0;
        while p < n
            invariant
                n == rows.len(),
                p <= n,
                tok.ownership.entries@ == rows,
                forall|i: int, j: int|
                    0 <= i < j < rows.len() ==> (#[trigger] rows[i]).key() != (
                    #[trigger] rows[j]).key(),
                self.owners.wf(),
                self.tokens@ == pre.tokens@.remove(ti as int),
                self.assets == pre.assets,
                self.metadata == pre.metadata,
                self.stats.total_supply == pre.stats.total_supply,
                self.stats.total_transactions == pre.stats.total_transactions,
                self.stats.total_spaces == pre.stats.total_spaces,
                self.stats.cycles == pre.stats.cycles,
                self.stats.total_unique_holders == self.owners.count(),
                forall|b: Seq<u8>, s: u64|
                    s != token_id ==> self.owners.has_pair(b, s) == pre.owners.has_pair(b, s),
                forall|b: Seq<u8>|
                    self.owners.has_pair(b, token_id) == (exists|q: int|
                        p <= q < rows.len() && (#[trigger] rows[q]).key() == b),
                forall|b: Seq<u8>|
                    self.owners.has_account(b) == (pre.owners.has_account(b) && ((exists|q: int|
                        0 <= q < p && (#[trigger] rows[q]).key() == b)
                        ==> pre.owners.tokens_of(b).len() > 1)),
                forall|b: Seq<u8>|
                    !(exists|q: int| 0 <= q < p && (#[trigger] rows[q]).key() == b) ==> (
                    self.owners.has_account(b) == pre.owners.has_account(b)
                        && self.owners.tokens_of(b) == pre.owners.tokens_of(b)),
            decreases n - p,
        {
            let acct = tok.ownership.entries[p].account.clone();
            proof {
                assert(rows[p as int].key() == acct@);
                assert(self.owners.has_pair(acct@, token_id)) by {
                    assert(rows[p as int].key() == acct@);
                }
                assert(!(exists|q: int| 0 <= q < p && (#[trigger] rows[q]).key() == acct@));
                assert(self.owners.tokens_of(acct@) == pre.owners.tokens_of(acct@));
            }
            let ghost owners_before = self.owners;
            let deleted = self.owners.remove(&acct, token_id);
            if deleted {
                proof {
                    assert(self.stats.total_unique_holders > 0);
                }
                self.stats.total_unique_holders = self.stats.total_unique_holders - 1;
            }
            p = p + 1;
            proof {
                assert forall|b: Seq<u8>|
                    self.owners.has_pair(b, token_id) == (exists|q: int|
                        p <= q < rows.len() && (#[trigger] rows[q]).key() == b) by {
                    if b == acct@ {
                        assert(!self.owners.has_pair(b, token_id));
                        if exists|q: int| p <= q < rows.len() && (#[trigger] rows[q]).key() == b {
                            let q = choose|q: int|
                                p <= q < rows.len() && (#[trigger] rows[q]).key() == b;
                            assert(rows[p - 1].key() == rows[q].key());
                            assert(false);
                        }
                    } else {
                        if exists|q: int| p - 1 <= q < rows.len() && (#[trigger] rows[q]).key()
                            == b {
                            let q = choose|q: int|
                                p - 1 <= q < rows.len() && (#[trigger] rows[q]).key() == b;
                            assert(q != p - 1);
                        }
                    }
                }
                assert forall|b: Seq<u8>|
                    self.owners.has_account(b) == (pre.owners.has_account(b) && ((exists|q: int|
                        0 <= q < p && (#[trigger] rows[q]).key() == b)
                        ==> pre.owners.tokens_of(b).len() > 1)) by {
                    if b == acct@ {
                        assert(rows[p - 1].key() == b);
                    } else {
                        if exists|q: int| 0 <= q < p && (#[trigger] rows[q]).key() == b {
                            let q = choose|q: int|
                                0 <= q < p && (#[trigger] rows[q]).key() == b;
                            assert(q != p - 1);
                            assert(exists|q2: int|
                                0 <= q2 < p - 1 && (#[trigger] rows[q2]).key() == b);
                        }
                    }
                }
            }
        }
        // Mark the token terminally burned, clear its table, stamp the audit
        // fields, and anonymize the minter.
        tok.ownership.clear_all();
        tok.burned = true;
        tok.burned_at = Option::Some(now);
        tok.burned_by = Option::Some(caller.clone());
        tok.minted_by = AccountId::anonymous();
        self.tokens.insert(ti, tok);
        proof {
            assert(self.tokens@ =~= pre.tokens@.update(ti as int, self.tokens@[ti as int]));
            lemma_count_update(pre.tokens@, ti as int, self.tokens@[ti as int]);
            lemma_count_pos(pre.tokens@, ti as int);
        }
        self.stats.total_supply = self.stats.total_supply - 1;
        if self.stats.total_transactions != u64::MAX {
            self.stats.total_transactions = self.stats.total_transactions + 1;
        }
        proof {
            let post = *self;
            Self::lemma_token_update(pre, post, ti as int);
            assert(post.wf_tokens()) by {
                assert forall|i: int|
                    0 <= i < post.tokens@.len() implies (#[trigger] post.tokens@[i]).ownership.wf()
                        && (post.tokens@[i].burned ==> post.tokens@[i].ownership.entries@.len()
                        == 0) && post.has_asset(post.tokens@[i].asset_id) by {
                    if i != ti as int {
                        assert(post.tokens@[i] == pre.tokens@[i]);
                    }
                    assert(pre.has_asset(pre.tokens@[i].asset_id));
                }
                assert forall|i: int, j: int|
                    0 <= i < j < post.tokens@.len() implies (#[trigger] post.tokens@[i]).asset_id
                    != (#[trigger] post.tokens@[j]).asset_id by {
                    assert(pre.tokens@[i].asset_id == post.tokens@[i].asset_id);
                    assert(pre.tokens@[j].asset_id == post.tokens@[j].asset_id);
                }
            }
            assert(post.conservation()) by {
                assert forall|i: int|
                    0 <= i < post.tokens@.len() && !(#[trigger] post.tokens@[i]).burned implies post.tokens@[i].ownership.total()
                    == post.asset_of(post.tokens@[i].asset_id).total_units - post.asset_of(
                    post.tokens@[i].asset_id,
                ).units_available by {
                    assert(i != ti as int);
                    assert(post.tokens@[i] == pre.tokens@[i]);
                    assert(post.assets@ == pre.assets@);
                }
            }
            assert(post.wf_assets()) by {
                assert forall|i: int|
                    0 <= i < post.assets@.len() && !post.asset_tokenized(
                        (#[trigger] post.assets@[i]).id,
                    ) implies post.assets@[i].units_available == post.assets@[i].total_units by {
                    assert(!pre.asset_tokenized(pre.assets@[i].id));
                }
            }
            assert(post.index_consistent()) by {
                assert forall|b: Seq<u8>, t: u64| #![trigger post.owners.has_pair(b, t)]
                    post.owners.has_pair(b, t) <==> (post.has_token(t) && post.token_of(
                        t,
                    ).ownership.has(b)) by {
                    if t == token_id {
                        assert(!post.owners.has_pair(b, t));
                        assert(post.token_of(token_id) == post.tokens@[ti as int]);
                        if post.token_of(t).ownership.has(b) {
                            let w = post.token_of(t).ownership.idx_of(b);
                            assert(false);
                        }
                    } else {
                        assert(pre.owners.has_pair(b, t) <==> (pre.has_token(t) && pre.token_of(
                            t,
                        ).ownership.has(b)));
                        if pre.has_token(t) {
                            assert(post.token_of(t) == pre.token_of(t));
                        }
                    }
                }
            }
            assert(post.stats_ok());
            assert forall|b: Seq<u8>|
                post.owners.has_account(b) == (pre.owners.has_account(b) && (pre.owners.tokens_of(
                    b,
                ).len() > 1 || !pre.owners.has_pair(b, token_id))) by {
                assert(pre.owners.has_pair(b, token_id) == (exists|q: int|
                    0 <= q < rows.len() && (#[trigger] rows[q]).key() == b));
            }
        }
        Ok(Ok(()))
    }

    /// The holdings `account` would see: one entry per token it holds units
    /// of, in ledger order.
    pub fn get_housing_units(&self, account: &AccountId) -> (r: Vec<HousingUnit>)
        requires
            self.wf(),
        ensures
            r@ == housing_units_of(self.tokens@, account@),
    {
        let mut r: Vec<HousingUnit> = Vec::new();
        let mut i: usize = 0;
        while i < self.tokens.len()
            invariant
                self.wf(),
                i <= self.tokens@.len(),
                r@ == housing_units_of(self.tokens@.take(i as int), account@),
            decreases self.tokens@.len() - i,
        {
            proof {
                assert(self.tokens@[i as int].ownership.wf());
                assert(self.tokens@.take(i + 1).drop_last() =~= self.tokens@.take(i as int));
                assert(self.tokens@.take(i + 1).last() == self.tokens@[i as int]);
            }
            if self.tokens[i].ownership.contains(account) {
                let u = self.tokens[i].ownership.units(account);
                r.push(HousingUnit { id: self.tokens[i].id, num_units: u });
            }
            i = i + 1;
        }
        proof {
            assert(self.tokens@.take(self.tokens@.len() as int) =~= self.tokens@);
        }
        r
    }
}

/// The holdings of `a` across a token sequence, in order: one entry per
/// token whose balance table has a row for `a`.
pub open spec fn housing_units_of(s: Seq<Token>, a: Seq<u8>) -> Seq<HousingUnit>
    decreases s.len(),
{
    if s.len() == 0 {
        Seq::empty()
    } else {
        let rest = housing_units_of(s.drop_last(), a);
        if s.last().ownership.has(a) {
            rest.push(
                HousingUnit { id: s.last().id, num_units: s.last().ownership.units_of(a) as u64 },
            )
        } else {
            rest
        }
    }
}

} // verus!
