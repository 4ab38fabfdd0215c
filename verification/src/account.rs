//! Account identifiers and subaccounts.
//!
//! An [`AccountId`] is an opaque 32-byte identifier naming a balance-holding
//! account; equality is by exact byte value. A [`Subaccount`] is a 32-byte
//! selector that, together with a principal, determines an account identifier.

use vstd::prelude::*;

verus! {

use crate::wallet::WalletError;

/// An opaque, fixed-size byte identifier, globally unique per account.
#[derive(Clone, Copy, Debug)]
pub struct AccountId {
    bytes: [u8; 32],
}

impl View for AccountId {
    type V = Seq<u8>;

    closed spec fn view(&self) -> Seq<u8> {
        self.bytes@
    }
}

impl AccountId {
    /// Builds an identifier from its exact 32 bytes.
    pub fn from_bytes(bytes: [u8; 32]) -> (r: AccountId)
        ensures
            r@ == bytes@,
    {
        AccountId { bytes }
    }

    /// Returns the identifier's 32 bytes.
    pub fn to_bytes(&self) -> (r: [u8; 32])
        ensures
            r@ == self@,
    {
        self.bytes
    }
}

impl PartialEq for AccountId {
    fn eq(&self, other: &AccountId) -> (r: bool) {
        let mut i: usize = 0;
        while i < 32
            invariant
                i <= 32,
                forall|j: int| 0 <= j < i ==> self.bytes@[j] == other.bytes@[j],
            decreases 32 - i,
        {
            if self.bytes[i] != other.bytes[i] {
                assert(self.bytes@ != other.bytes@);
                return false;
            }
            i = i + 1;
        }
        assert(self.bytes@ =~= other.bytes@);
        true
    }
}

impl Eq for AccountId {}

impl vstd::std_specs::cmp::PartialEqSpecImpl for AccountId {
    open spec fn obeys_eq_spec() -> bool {
        true
    }

    open spec fn eq_spec(&self, other: &AccountId) -> bool {
        self@ == other@
    }
}

/// A 32-byte selector distinguishing accounts of one principal.
#[derive(Clone, Copy, Debug)]
pub struct Subaccount {
    bytes: [u8; 32],
}

impl View for Subaccount {
    type V = Seq<u8>;

    closed spec fn view(&self) -> Seq<u8> {
        self.bytes@
    }
}

impl Subaccount {
    /// Builds a subaccount from its exact 32 bytes.
    pub fn from_bytes(bytes: [u8; 32]) -> (r: Subaccount)
        ensures
            r@ == bytes@,
    {
        Subaccount { bytes }
    }

    /// Returns the subaccount's 32 bytes.
    pub fn to_bytes(&self) -> (r: [u8; 32])
        ensures
            r@ == self@,
    {
        self.bytes
    }
}

/// The all-zero subaccount that selects a principal's default account.
pub open spec fn zero_subaccount() -> Seq<u8> {
    Seq::new(32, |i: int| 0u8)
}

/// Returns the default (all-zero) subaccount.
pub fn default_subaccount() -> (r: Subaccount)
    ensures
        r@ == zero_subaccount(),
{
    let bytes: [u8; 32] = [0; 32];
    let r = Subaccount { bytes };
    proof {
        assert(r@ =~= zero_subaccount());
    }
    r
}

/// The account identifier that the ledger derives from a principal and a
/// subaccount. The derivation (a digest with a checksum prefix) is a function
/// of the two byte strings alone.
pub uninterp spec fn account_id_of(principal: Seq<u8>, subaccount: Seq<u8>) -> Seq<u8>;

/// Relies on `ic_ledger_types::AccountIdentifier::new` (reached through
/// `candid::Principal::from_slice`, which accepts any slice of at most 29
/// bytes): the derived identifier depends on the principal and subaccount
/// bytes alone.
#[verifier::external_body]
fn derive_account(principal: &Vec<u8>, subaccount: &Subaccount) -> (r: AccountId)
    requires
        principal@.len() <= 29,
    ensures
        r@ == account_id_of(principal@, subaccount@),
{
    let owner = candid::Principal::from_slice(principal.as_slice());
    let sub = ic_ledger_types::Subaccount(subaccount.bytes);
    let id = ic_ledger_types::AccountIdentifier::new(&owner, &sub);
    AccountId { bytes: *id.as_bytes() }
}

/// Derives the account identifier that `principal` owns under `subaccount`.
/// A principal longer than 29 bytes fails basic validity constraints and is
/// rejected as malformed before any derivation.
pub fn account_identifier(principal: &Vec<u8>, subaccount: &Subaccount) -> (r: Result<
    AccountId,
    WalletError,
>)
    ensures
        r is Ok <==> principal@.len() <= 29,
        r matches Ok(a) ==> a@ == account_id_of(principal@, subaccount@),
        r matches Err(e) ==> e == WalletError::MalformedInput,
{
    if principal.len() > 29 {
        Err(WalletError::MalformedInput)
    } else {
        Ok(derive_account(principal, subaccount))
    }
}

/// Returns the subaccount whose first byte is `index` and whose other bytes
/// are zero.
pub fn create_subaccount(index: u8) -> (r: Subaccount)
    ensures
        r@.len() == 32,
        r@[0] == index,
        forall|i: int| 1 <= i < 32 ==> r@[i] == 0u8,
{
    let mut bytes: [u8; 32] = [0; 32];
    bytes[0] = index;
    Subaccount { bytes }
}

} // verus!
