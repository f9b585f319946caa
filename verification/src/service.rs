use vstd::prelude::*;

use crate::account::{account_identifier_text, user_account};
use crate::principal::Principal;
use crate::storage::{
    allowance_post, approve_post, balance_post, metadata_post, owner_of_post, transfer_post,
    Storage,
};
use crate::token_id::token_text_valid;
use crate::types::{
    blob_view, AccountIdentifier, AllowanceRequest, ApproveRequest, Balance, BalanceRequest,
    BalanceResponse,
    ClaimRequest, CommonError, Metadata, MintRequest, TokenIdentifier, TokenIndex,
    TransferRequest, TransferResponse,
};

verus! {

/// The requests of the canister's interface, served on its registry.
pub struct Service {}

impl Service {
    /// Mints a token as the request describes.
    pub fn mint(ext: &mut Storage, req: MintRequest) -> (token_id: TokenIndex)
        requires
            old(ext).next_token_id < u32::MAX,
            old(ext).supply < u32::MAX,
        ensures
            token_id == old(ext)@.next_token_id,
            final(ext)@ == old(ext)@.minted(blob_view(req.metadata)),
    {
        ext.mint(req.to, req.metadata)
    }

    /// Whether the principal's account may still claim.
    pub fn is_claimable(ext: &Storage, principal: Principal) -> (r: bool)
        ensures
            r == ext@.can_claim(account_identifier_text(principal@)),
    {
        ext.is_claimable(principal)
    }

    /// Gives the next claimable token to the principal's account.
    pub fn claim(ext: &mut Storage, principal: Principal) -> (token_id: TokenIndex)
        requires
            old(ext).next_claim_id < old(ext).supply_claim,
            old(ext)@.can_claim(account_identifier_text(principal@)),
        ensures
            token_id == old(ext).next_claim_id,
            final(ext)@ == old(ext)@.claimed_by(account_identifier_text(principal@)),
    {
        ext.claim(principal)
    }

    /// Gives the requested reserved token to the requested user.
    pub fn claim_reserve(ext: &mut Storage, req: ClaimRequest) -> (r: TokenIndex)
        requires
            old(ext)@.reserve_open(req.index),
        ensures
            r == req.index,
            final(ext)@ == old(ext)@.assigned(req.index, user_account(req.to)),
    {
        ext.force_claim(req.to, req.index)
    }

    /// Moves a token as the request asks, on behalf of `caller`.
    pub fn transfer_from(
        ext: &mut Storage,
        req: TransferRequest,
        caller: Principal,
        canister: Principal,
    ) -> (r: TransferResponse)
        requires
            token_text_valid(req.token@),
        ensures
            transfer_post(old(ext)@, final(ext)@, req.token, req.from, req.to, caller, canister, r),
    {
        ext.transfer_from(req.token, req.from, req.to, caller, canister)
    }

    /// Approves the requested spender on behalf of `caller`.
    pub fn approve(ext: &mut Storage, req: ApproveRequest, caller: Principal, canister: Principal) -> (r:
        bool)
        requires
            token_text_valid(req.token@),
        ensures
            approve_post(old(ext)@, final(ext)@, req.token, req.spender, caller, canister, r),
    {
        ext.approve(req.token, req.spender, caller, canister)
    }

    /// Whether the requested spender may move the token.
    pub fn allowance(ext: &Storage, req: AllowanceRequest, canister: Principal) -> (r: Result<
        Balance,
        CommonError,
    >)
        requires
            token_text_valid(req.token@),
        ensures
            allowance_post(ext@, req.token, req.owner, req.spender, canister, r),
    {
        ext.allowance(req.token, req.owner, req.spender, canister)
    }

    /// Whether the requested user holds the token.
    pub fn balance(ext: &Storage, req: BalanceRequest, canister: Principal) -> (r: BalanceResponse)
        requires
            token_text_valid(req.token@),
        ensures
            balance_post(ext@, req.token, req.user, canister, r),
    {
        ext.balance(req.token, req.user, canister)
    }

    /// The account that holds the token.
    pub fn owner_of(ext: &Storage, token: TokenIdentifier, canister: Principal) -> (r: Result<
        AccountIdentifier,
        CommonError,
    >)
        requires
            token_text_valid(token@),
        ensures
            owner_of_post(ext@, token, canister, r),
    {
        ext.owner_of(token, canister)
    }

    /// The metadata of the token.
    pub fn metadata(ext: &Storage, token: TokenIdentifier, canister: Principal) -> (r: Result<
        Metadata,
        CommonError,
    >)
        requires
            token_text_valid(token@),
        ensures
            metadata_post(ext@, token, canister, r),
    {
        ext.metadata(token, canister)
    }
}

/// Admits only managers: answers an error "Not manager" to anyone else.
pub fn manager_guard(ext: &Storage, caller: Principal) -> (r: Result<(), String>)
    ensures
        r is Ok <==> ext@.manager.contains_key(caller@),
        r matches Err(m) ==> m@ == "Not manager"@,
{
    if ext.is_manager(caller) {
        Ok(())
    } else {
        Err(String::from_str("Not manager"))
    }
}

} // verus!
