use vstd::prelude::*;
use vstd::utf8::encode_utf8;

use crate::principal::{Principal, MAX_PRINCIPAL_BYTES};
use crate::types::{AccountIdentifier, User};

verus! {

/// The hexadecimal text of the ledger account that `ic_ledger_types::AccountIdentifier::new`
/// derives from a principal's bytes with the default (all-zero) subaccount.
pub uninterp spec fn account_identifier_text(principal: Seq<u8>) -> Seq<char>;

/// Calls `ic_ledger_types::AccountIdentifier::new` on the principal with the default
/// subaccount and writes the result with `to_string`. Claimed of it: the text is
/// [`account_identifier_text`] of the bytes, and it is 64 characters of one byte each
/// (the 32 bytes of the identifier in lower-case hexadecimal).
#[verifier::external_body]
pub(crate) fn ledger_account_text(principal: &[u8]) -> (r: String)
    requires
        principal@.len() <= MAX_PRINCIPAL_BYTES,
    ensures
        r@ == account_identifier_text(principal@),
        r@.len() == 64,
        encode_utf8(r@).len() == 64,
{
    ic_ledger_types::AccountIdentifier::new(
        &candid::Principal::from_slice(principal),
        &ic_ledger_types::DEFAULT_SUBACCOUNT,
    ).to_string()
}

/// The account text of a user: the ledger account of a principal, or the address itself.
pub open spec fn user_account(user: User) -> Seq<char> {
    match user {
        User::Principal(p) => account_identifier_text(p@),
        User::Address(a) => a@,
    }
}

/// The default ledger account of a principal.
pub fn from_principal(principal: Principal) -> (r: AccountIdentifier)
    ensures
        r@ == account_identifier_text(principal@),
        r@.len() == 64,
        encode_utf8(r@).len() == 64,
{
    ledger_account_text(principal.as_slice())
}

/// The account a user stands for.
pub fn to_aid(user: User) -> (r: AccountIdentifier)
    ensures
        r@ == user_account(user),
{
    match user {
        User::Principal(principal) => from_principal(principal),
        User::Address(address) => address,
    }
}

} // verus!
