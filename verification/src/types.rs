//! Shared data types: account identities, unit amounts, space listings,
//! free-form token properties, and the error taxonomies.

use vstd::prelude::*;

verus! {

/// Opaque account identity consumed from the platform: the raw bytes of a
/// principal.  The ledger only ever compares identities for equality.
#[derive(Debug)]
pub struct AccountId {
    pub bytes: Vec<u8>,
}

impl View for AccountId {
    type V = Seq<u8>;

    open spec fn view(&self) -> Seq<u8> {
        self.bytes@
    }
}

impl AccountId {
    pub fn new(bytes: Vec<u8>) -> (r: AccountId)
        ensures
            r@ == bytes@,
    {
        AccountId { bytes }
    }

    /// The anonymous identity: the single byte 0x04, as the platform defines it.
    pub fn anonymous() -> (r: AccountId)
        ensures
            r@ == seq![4u8],
    {
        let mut bytes: Vec<u8> = Vec::new();
        bytes.push(4u8);
        proof {
            assert(bytes@ =~= seq![4u8]);
        }
        AccountId { bytes }
    }
}

impl Clone for AccountId {
    fn clone(&self) -> (r: AccountId)
        ensures
            r@ == self@,
    {
        let b = self.bytes.clone();
        proof {
            assert forall|i: int| 0 <= i < self.bytes@.len() implies b@[i] == self.bytes@[i] by {
                assert(cloned::<u8>(self.bytes[i], b[i]));
            }
            assert(b@ =~= self.bytes@);
        }
        AccountId { bytes: b }
    }
}

impl PartialEq for AccountId {
    fn eq(&self, other: &AccountId) -> (r: bool) {
        let r = self.bytes == other.bytes;
        proof {
            if r {
                assert(self.bytes@ =~= other.bytes@);
            } else {
                if self.bytes@ == other.bytes@ {
                    assert(self.bytes@.len() == other.bytes@.len());
                    assert(false);
                }
            }
        }
        r
    }
}

impl vstd::std_specs::cmp::PartialEqSpecImpl for AccountId {
    open spec fn obeys_eq_spec() -> bool {
        true
    }

    open spec fn eq_spec(&self, other: &AccountId) -> bool {
        self@ == other@
    }
}

/// A balance in the payment collaborator's smallest denomination.
#[derive(Clone, Copy, Debug, PartialEq, Eq, Structural)]
pub struct Tokens {
    pub amount_e8s: u64,
}

impl Default for Tokens {
    fn default() -> (r: Tokens)
        ensures
            r.amount_e8s == 0,
    {
        Tokens { amount_e8s: 0 }
    }
}

/// One holding of a token: the token identifier and the unit count held.
#[derive(Clone, Copy, Debug, PartialEq, Eq, Structural)]
pub struct HousingUnit {
    pub id: u64,
    pub num_units: u64,
}

impl Default for HousingUnit {
    fn default() -> (r: HousingUnit)
        ensures
            r.id == 0 && r.num_units == 0,
    {
        HousingUnit { id: 0, num_units: 0 }
    }
}

/// A typed free-form metadata value attached to a token.
pub enum PropertyValue {
    BoolContent(bool),
    Nat64Content(u64),
    Int64Content(i64),
    TextContent(String),
    BlobContent(Vec<u8>),
}

/// One named metadata entry of a token.
pub struct Property {
    pub name: String,
    pub value: PropertyValue,
}

/// Deep value equality of two metadata values.
pub open spec fn property_value_eq(a: PropertyValue, b: PropertyValue) -> bool {
    match (a, b) {
        (PropertyValue::BoolContent(x), PropertyValue::BoolContent(y)) => x == y,
        (PropertyValue::Nat64Content(x), PropertyValue::Nat64Content(y)) => x == y,
        (PropertyValue::Int64Content(x), PropertyValue::Int64Content(y)) => x == y,
        (PropertyValue::TextContent(x), PropertyValue::TextContent(y)) => x@ == y@,
        (PropertyValue::BlobContent(x), PropertyValue::BlobContent(y)) => x@ == y@,
        _ => false,
    }
}

/// Deep value equality of two metadata entries.
pub open spec fn property_eq(a: Property, b: Property) -> bool {
    a.name@ == b.name@ && property_value_eq(a.value, b.value)
}

/// Deep value equality of two metadata lists.
pub open spec fn properties_eq(a: Seq<Property>, b: Seq<Property>) -> bool {
    a.len() == b.len() && forall|i: int| 0 <= i < a.len() ==> property_eq(#[trigger] a[i], b[i])
}

impl Clone for PropertyValue {
    fn clone(&self) -> (r: PropertyValue)
        ensures
            property_value_eq(r, *self),
    {
        match self {
            PropertyValue::BoolContent(b) => PropertyValue::BoolContent(*b),
            PropertyValue::Nat64Content(n) => PropertyValue::Nat64Content(*n),
            PropertyValue::Int64Content(i) => PropertyValue::Int64Content(*i),
            PropertyValue::TextContent(s) => PropertyValue::TextContent(s.clone()),
            PropertyValue::BlobContent(v) => {
                let c = v.clone();
                proof {
                    assert forall|i: int| 0 <= i < v@.len() implies c@[i] == v@[i] by {
                        assert(cloned::<u8>(v[i], c[i]));
                    }
                    assert(c@ =~= v@);
                }
                PropertyValue::BlobContent(c)
            },
        }
    }
}

impl Clone for Property {
    fn clone(&self) -> (r: Property)
        ensures
            property_eq(r, *self),
    {
        Property { name: self.name.clone(), value: self.value.clone() }
    }
}

/// Clones a metadata list entry by entry.
pub fn clone_properties(props: &Vec<Property>) -> (r: Vec<Property>)
    ensures
        properties_eq(r@, props@),
{
    let mut r: Vec<Property> = Vec::new();
    let mut i: usize = 0;
    while i < props.len()
        invariant
            i <= props.len(),
            r@.len() == i,
            forall|j: int| 0 <= j < i ==> property_eq(#[trigger] r@[j], props@[j]),
        decreases props.len() - i,
    {
        r.push(props[i].clone());
        i = i + 1;
    }
    r
}

/// The guard-level error: the caller is not a custodian.
#[derive(Clone, Copy, Debug, PartialEq, Eq, Structural)]
pub enum CanisterError {
    NotCustodian,
}

impl CanisterError {
    /// The string reason surfaced to the guard's caller.
    pub fn as_text(&self) -> (r: String)
        ensures
            r@ == "You are not a custodian in this canister"@,
    {
        String::from_str("You are not a custodian in this canister")
    }
}

/// The domain-level error taxonomy of the token ledger.
#[derive(Clone, Debug)]
pub enum NftError {
    SelfTransfer,
    TokenNotFound,
    TxNotFound,
    SelfApprove,
    OperatorNotFound,
    UnauthorizedOwner,
    UnauthorizedOperator,
    ExistedNFT,
    OwnerNotFound,
    UnitsNotAvailable,
    InsufficientUnits,
    SenderNotOwner,
    Other(String),
}

/// The orchestrator's error taxonomy, one level above the ledger's.
#[derive(Clone, Debug)]
pub enum ErrorType {
    Unauthorized(String),
    NotFound(String),
    Failure(String),
    NftError(NftError),
    CanisterError(String),
}

/// Error wrapper returned by the orchestrating service.
#[derive(Clone, Debug)]
pub struct DaoServiceError {
    pub error_type: ErrorType,
}

/// Lifecycle of a governance proposal (an external collaborator's record).
#[derive(Clone, Debug)]
pub enum ProposalState {
    Open,
    Accepted,
    Rejected,
    Executing,
    Succeeded,
    Failed(String),
}

/// What a governance proposal proposes.
#[derive(Clone, Debug)]
pub enum Proposition {
    UnitsSale(UnitSaleProposition),
    SetPrice(SetPriceProposition),
    Other(String),
}

/// Proposal to sell units to a buyer.
#[derive(Clone, Debug)]
pub struct UnitSaleProposition {
    pub num_units: u64,
    pub buyer_account: AccountId,
}

/// Proposal to set a new unit price.
#[derive(Clone, Copy, Debug, PartialEq, Eq, Structural)]
pub struct SetPriceProposition {
    pub new_price: u64,
}

/// Terms of a listed space: owner, description, and unit economics.
pub struct SpaceDetails {
    pub owner: AccountId,
    pub location: String,
    pub description: String,
    pub price_per_unit: u64,
    pub units_available: u64,
}

/// A listed space with its identifier.
pub struct Space {
    pub id: u64,
    pub details: SpaceDetails,
}

/// Deep value equality of two space-term records.
pub open spec fn space_details_eq(a: SpaceDetails, b: SpaceDetails) -> bool {
    &&& a.owner@ == b.owner@
    &&& a.location@ == b.location@
    &&& a.description@ == b.description@
    &&& a.price_per_unit == b.price_per_unit
    &&& a.units_available == b.units_available
}

/// Deep value equality of two listed spaces.
pub open spec fn space_eq(a: Space, b: Space) -> bool {
    a.id == b.id && space_details_eq(a.details, b.details)
}

impl Clone for SpaceDetails {
    fn clone(&self) -> (r: SpaceDetails)
        ensures
            space_details_eq(r, *self),
    {
        SpaceDetails {
            owner: self.owner.clone(),
            location: self.location.clone(),
            description: self.description.clone(),
            price_per_unit: self.price_per_unit,
            units_available: self.units_available,
        }
    }
}

impl Clone for Space {
    fn clone(&self) -> (r: Space)
        ensures
            space_eq(r, *self),
    {
        Space { id: self.id, details: self.details.clone() }
    }
}

/// A member account of the orchestrating service.
pub struct Account {
    pub principal: AccountId,
    pub tokens: Tokens,
    pub housing_units: Vec<HousingUnit>,
}

/// Deep value equality of two member accounts.
pub open spec fn account_eq(a: Account, b: Account) -> bool {
    &&& a.principal@ == b.principal@
    &&& a.tokens == b.tokens
    &&& a.housing_units@ == b.housing_units@
}

impl Clone for Account {
    fn clone(&self) -> (r: Account)
        ensures
            account_eq(r, *self),
    {
        let units = self.housing_units.clone();
        proof {
            assert forall|i: int| 0 <= i < self.housing_units@.len() implies units@[i]
                == self.housing_units@[i] by {
                assert(cloned::<HousingUnit>(self.housing_units[i], units[i]));
            }
            assert(units@ =~= self.housing_units@);
        }
        Account { principal: self.principal.clone(), tokens: self.tokens, housing_units: units }
    }
}

} // verus!
