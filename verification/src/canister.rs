//! The decisions of the canister's entry points. Each takes the registry and the
//! call's arguments (with the caller and this canister's id where the entry point
//! reads them) and answers either the reply or the reason the call traps; a call
//! that traps leaves the registry as it was.

use vstd::prelude::*;
use vstd::std_specs::hash::spec_hash_map_iter;
use vstd::std_specs::iter::IteratorSpec;
use vstd::utf8::encode_utf8;

use crate::account::{account_identifier_text, user_account};
use crate::principal::{parse_principal_text, principal_text, principal_text_bytes, Principal};
use crate::service::Service;
use crate::storage::{
    allowance_post, approve_post, balance_post, lemma_push_contains, metadata_post,
    owner_of_post, transfer_post, Storage, StorageView,
};
use crate::token_id::{
    decode_token_id, decoded_canister, decoded_index, decoded_token, encode_token_id,
    readable_token_bytes, token_blob, token_bytes_readable, token_obj_is, token_text_valid,
    CANISTER_ID_HASH_LEN_IN_BYTES,
};
use crate::types::{
    blob_view, copy_blob, AccountIdentifier, AllowanceRequest, ApproveRequest, Balance,
    BalanceRequest, BalanceResponse, ClaimRequest, CommonError, Extension, Info, Metadata,
    MetadataView, MintRequest, TokenIdentifier, TokenIndex, TokenObj, TransferRequest,
    TransferResponse, User,
};

verus! {

/// Why a call traps. The canister traps with a message made from it, and the
/// call's changes are dropped.
#[derive(Clone, Debug, PartialEq, Eq)]
pub enum Trap {
    /// The reserve can be set only below the supply and before claims start.
    InitReserveFail { next_claim_id: u32 },
    /// The claim supply must exceed the reserve.
    ClaimBelowReserve { claim: u32, reserve: u32 },
    /// The claim supply cannot exceed the supply.
    ClaimExceedSupply { claim: u32, supply: u32 },
    /// Every claimable token is gone.
    ExceedClaimSupply,
    /// The account has claimed already.
    AlreadyClaimed,
    /// The token is not among the reserved ones.
    ExceedClaimReserve,
    /// The reserved token has been handed to this account already.
    AccountExists(AccountIdentifier),
    /// There is no such token.
    InvalidTokenId(TokenIndex),
    /// A token text that is no principal: decoding it fails and the failure is unwrapped.
    UndecodableToken,
    /// A token text whose principal opens with the token prefix but is not 18 bytes
    /// long: slicing it out of range fails.
    MalformedToken,
    /// A counter would go past `u32::MAX`.
    Overflow,
    /// A canister id longer than 10 bytes does not fit in a token identifier.
    CanisterIdTooLong,
    /// A token text that is not a decimal `u32`: parsing it fails and the failure is unwrapped.
    NotANumber(TokenIdentifier),
}

/// The fault, if any, that reading a token's index and canister from the text hits.
pub open spec fn token_fault(t: Seq<char>) -> Option<Trap> {
    match principal_text_bytes(t) {
        None => Some(Trap::UndecodableToken),
        Some(b) => if token_bytes_readable(b) {
            None
        } else {
            Some(Trap::MalformedToken)
        },
    }
}

/// The fault, if any, that reading a token's index and canister from the text hits.
pub fn check_token_text(tid: &str) -> (r: Option<Trap>)
    ensures
        r == token_fault(tid@),
        r is None <==> token_text_valid(tid@),
{
    match parse_principal_text(tid) {
        Ok(p) => if readable_token_bytes(p.as_slice()) {
            None
        } else {
            Some(Trap::MalformedToken)
        },
        Err(_) => Some(Trap::UndecodableToken),
    }
}

/// Sets the reserve: the tokens below it are kept for hand-outs, and claims start
/// right after it. Allowed only below the supply and before the second claim.
pub fn init_reserve(ext: &mut Storage, rsv: Balance) -> (r: Result<(), Trap>)
    ensures
        old(ext).supply > rsv && old(ext).next_claim_id < 2 ==> r is Ok && final(ext)@
            == (StorageView { reserve: rsv, next_claim_id: rsv, ..old(ext)@ }),
        !(old(ext).supply > rsv && old(ext).next_claim_id < 2) ==> r == Err::<(), Trap>(
            Trap::InitReserveFail { next_claim_id: old(ext).next_claim_id },
        ) && final(ext)@ == old(ext)@,
{
    if rsv < ext.supply && ext.next_claim_id < 2 {
        ext.reserve = rsv;
        ext.next_claim_id = rsv;
        Ok(())
    } else {
        Err(Trap::InitReserveFail { next_claim_id: ext.next_claim_id })
    }
}

/// Sets how many tokens can be claimed in all: 0 means the whole supply; otherwise
/// the number must exceed the reserve and not exceed the supply.
pub fn set_claim_supply(ext: &mut Storage, claim: Balance) -> (r: Result<(), Trap>)
    ensures
        claim == 0 ==> r is Ok && final(ext)@ == (StorageView {
            supply_claim: old(ext).supply,
            ..old(ext)@
        }),
        claim != 0 && claim <= old(ext).reserve ==> r == Err::<(), Trap>(
            Trap::ClaimBelowReserve { claim, reserve: old(ext).reserve },
        ) && final(ext)@ == old(ext)@,
        claim != 0 && claim > old(ext).reserve && claim > old(ext).supply ==> r == Err::<
            (),
            Trap,
        >(Trap::ClaimExceedSupply { claim, supply: old(ext).supply }) && final(ext)@ == old(ext)@,
        claim != 0 && old(ext).reserve < claim <= old(ext).supply ==> r is Ok && final(ext)@ == (
        StorageView { supply_claim: claim, ..old(ext)@ }),
{
    if claim == 0 {
        ext.supply_claim = ext.supply;
        return Ok(());
    }
    if claim <= ext.reserve {
        return Err(Trap::ClaimBelowReserve { claim, reserve: ext.reserve });
    }
    if claim > ext.supply {
        return Err(Trap::ClaimExceedSupply { claim, supply: ext.supply });
    }
    ext.supply_claim = claim;
    Ok(())
}

/// Mints one token.
pub fn mint_nft(ext: &mut Storage, req: MintRequest) -> (r: Result<TokenIndex, Trap>)
    ensures
        old(ext).next_token_id < u32::MAX && old(ext).supply < u32::MAX ==> r == Ok::<
            TokenIndex,
            Trap,
        >(old(ext).next_token_id) && final(ext)@ == old(ext)@.minted(blob_view(req.metadata)),
        !(old(ext).next_token_id < u32::MAX && old(ext).supply < u32::MAX) ==> r == Err::<
            TokenIndex,
            Trap,
        >(Trap::Overflow) && final(ext)@ == old(ext)@,
{
    if ext.next_token_id < u32::MAX && ext.supply < u32::MAX {
        Ok(Service::mint(ext, req))
    } else {
        Err(Trap::Overflow)
    }
}

/// Gives the next claimable token to the principal's account, once per account.
pub fn claim_nft(ext: &mut Storage, principal: Principal) -> (r: Result<TokenIndex, Trap>)
    ensures
        old(ext).next_claim_id >= old(ext).supply_claim ==> r == Err::<TokenIndex, Trap>(
            Trap::ExceedClaimSupply,
        ) && final(ext)@ == old(ext)@,
        old(ext).next_claim_id < old(ext).supply_claim && !old(ext)@.can_claim(
            account_identifier_text(principal@),
        ) ==> r == Err::<TokenIndex, Trap>(Trap::AlreadyClaimed) && final(ext)@ == old(ext)@,
        old(ext).next_claim_id < old(ext).supply_claim && old(ext)@.can_claim(
            account_identifier_text(principal@),
        ) ==> r == Ok::<TokenIndex, Trap>(old(ext).next_claim_id) && final(ext)@ == old(ext)@.claimed_by(account_identifier_text(principal@)),
{
    if ext.next_claim_id >= ext.supply_claim {
        return Err(Trap::ExceedClaimSupply);
    }
    if !Service::is_claimable(ext, principal.duplicate()) {
        return Err(Trap::AlreadyClaimed);
    }
    Ok(Service::claim(ext, principal))
}

/// Hands a reserved token that no account holds yet to the requested user.
pub fn force_claim_reserve(ext: &mut Storage, req: ClaimRequest) -> (r: Result<TokenIndex, Trap>)
    ensures
        old(ext)@.reserve_open(req.index) ==> r == Ok::<TokenIndex, Trap>(req.index) && final(ext)@ == old(ext)@.assigned(req.index, user_account(req.to)),
        !old(ext)@.reserve_open(req.index) ==> final(ext)@ == old(ext)@,
        req.index >= old(ext).reserve ==> r == Err::<TokenIndex, Trap>(Trap::ExceedClaimReserve),
        req.index < old(ext).reserve && !old(ext)@.registry.contains_key(req.index) ==> r == Err::<
            TokenIndex,
            Trap,
        >(Trap::InvalidTokenId(req.index)),
        req.index < old(ext).reserve && old(ext)@.registry.contains_key(req.index) && encode_utf8(
            old(ext)@.registry[req.index],
        ).len() >= 18 ==> (r matches Err(Trap::AccountExists(a)) && a@ == old(ext)@.registry[req.index]),
{
    if req.index >= ext.reserve {
        return Err(Trap::ExceedClaimReserve);
    }
    match ext.registry.get(&req.index) {
        Some(account_id) => {
            if account_id.as_str().as_bytes().len() >= 18 {
                return Err(Trap::AccountExists(account_id.clone()));
            }
        },
        None => {
            return Err(Trap::InvalidTokenId(req.index));
        },
    }
    Ok(Service::claim_reserve(ext, req))
}

/// Moves a token as the request asks, on behalf of `caller`.
pub fn transfer(ext: &mut Storage, req: TransferRequest, caller: Principal, canister: Principal) -> (r:
    Result<TransferResponse, Trap>)
    ensures
        match token_fault(req.token@) {
            Some(t) => r == Err::<TransferResponse, Trap>(t) && final(ext)@ == old(ext)@,
            None => r matches Ok(x) && transfer_post(
                old(ext)@,
                final(ext)@,
                req.token,
                req.from,
                req.to,
                caller,
                canister,
                x,
            ),
        },
{
    match check_token_text(req.token.as_str()) {
        Some(t) => Err(t),
        None => Ok(Service::transfer_from(ext, req, caller, canister)),
    }
}

/// Approves the requested spender on behalf of `caller`.
pub fn approve(ext: &mut Storage, req: ApproveRequest, caller: Principal, canister: Principal) -> (r:
    Result<bool, Trap>)
    ensures
        match token_fault(req.token@) {
            Some(t) => r == Err::<bool, Trap>(t) && final(ext)@ == old(ext)@,
            None => r matches Ok(x) && approve_post(
                old(ext)@,
                final(ext)@,
                req.token,
                req.spender,
                caller,
                canister,
                x,
            ),
        },
{
    match check_token_text(req.token.as_str()) {
        Some(t) => Err(t),
        None => Ok(Service::approve(ext, req, caller, canister)),
    }
}

/// Whether the requested spender may move the token.
pub fn allowance(ext: &Storage, req: AllowanceRequest, canister: Principal) -> (r: Result<
    Result<Balance, CommonError>,
    Trap,
>)
    ensures
        match token_fault(req.token@) {
            Some(t) => r == Err::<Result<Balance, CommonError>, Trap>(t),
            None => r matches Ok(x) && allowance_post(
                ext@,
                req.token,
                req.owner,
                req.spender,
                canister,
                x,
            ),
        },
{
    match check_token_text(req.token.as_str()) {
        Some(t) => Err(t),
        None => Ok(Service::allowance(ext, req, canister)),
    }
}

/// Whether the requested user holds the token.
pub fn balance(ext: &Storage, req: BalanceRequest, canister: Principal) -> (r: Result<
    BalanceResponse,
    Trap,
>)
    ensures
        match token_fault(req.token@) {
            Some(t) => r == Err::<BalanceResponse, Trap>(t),
            None => r matches Ok(x) && balance_post(ext@, req.token, req.user, canister, x),
        },
{
    match check_token_text(req.token.as_str()) {
        Some(t) => Err(t),
        None => Ok(Service::balance(ext, req, canister)),
    }
}

/// The account that holds the token.
pub fn bearer(ext: &Storage, token_identifier: TokenIdentifier, canister: Principal) -> (r: Result<
    Result<AccountIdentifier, CommonError>,
    Trap,
>)
    ensures
        match token_fault(token_identifier@) {
            Some(t) => r == Err::<Result<AccountIdentifier, CommonError>, Trap>(t),
            None => r matches Ok(x) && owner_of_post(ext@, token_identifier, canister, x),
        },
{
    match check_token_text(token_identifier.as_str()) {
        Some(t) => Err(t),
        None => Ok(Service::owner_of(ext, token_identifier, canister)),
    }
}

/// The metadata of the token.
pub fn metadata(ext: &Storage, token_identifier: TokenIdentifier, canister: Principal) -> (r:
    Result<Result<Metadata, CommonError>, Trap>)
    ensures
        match token_fault(token_identifier@) {
            Some(t) => r == Err::<Result<Metadata, CommonError>, Trap>(t),
            None => r matches Ok(x) && metadata_post(ext@, token_identifier, canister, x),
        },
{
    match check_token_text(token_identifier.as_str()) {
        Some(t) => Err(t),
        None => Ok(Service::metadata(ext, token_identifier, canister)),
    }
}

/// Decodes a token text; a text that is no principal gives the error "invalid token id".
pub fn decode_id(tid: TokenIdentifier) -> (r: Result<Result<TokenObj, String>, Trap>)
    ensures
        token_fault(tid@) == Some(Trap::MalformedToken) ==> r == Err::<
            Result<TokenObj, String>,
            Trap,
        >(Trap::MalformedToken),
        token_fault(tid@) != Some(Trap::MalformedToken) ==> (r matches Ok(x) && match decoded_token(
            tid@,
        ) {
            Some((i, c)) => x matches Ok(t) && token_obj_is(t, i, c),
            None => x matches Err(e) && e@ == "invalid token id"@,
        }),
{
    match check_token_text(tid.as_str()) {
        Some(Trap::MalformedToken) => Err(Trap::MalformedToken),
        _ => Ok(decode_token_id(tid)),
    }
}

/// Whether the token text names a token of this canister.
pub fn is_principal(tid: TokenIdentifier, canister: Principal) -> (r: Result<bool, Trap>)
    ensures
        match token_fault(tid@) {
            Some(t) => r == Err::<bool, Trap>(t),
            None => r == Ok::<bool, Trap>(decoded_canister(tid@) == canister@),
        },
{
    match check_token_text(tid.as_str()) {
        Some(t) => Err(t),
        None => Ok(crate::token_id::is_principal(tid, canister)),
    }
}

/// The text of token `token_index` of this canister.
pub fn token_id(canister: Principal, token_index: TokenIndex) -> (r: Result<TokenIdentifier, Trap>)
    ensures
        canister@.len() > CANISTER_ID_HASH_LEN_IN_BYTES ==> r == Err::<TokenIdentifier, Trap>(
            Trap::CanisterIdTooLong,
        ),
        canister@.len() <= CANISTER_ID_HASH_LEN_IN_BYTES ==> (r matches Ok(t) && t@ == principal_text(
            token_blob(canister@, token_index),
        )),
{
    if canister.as_slice().len() > CANISTER_ID_HASH_LEN_IN_BYTES {
        Err(Trap::CanisterIdTooLong)
    } else {
        Ok(encode_token_id(canister, token_index))
    }
}

/// The counters of the claim campaign.
pub fn pop_status(ext: &Storage) -> (r: Info)
    ensures
        r.reserve == ext.reserve,
        r.claimed == ext.next_claim_id,
        r.available == ext.supply_claim,
        r.supply == ext.supply,
{
    Info {
        reserve: ext.reserve,
        claimed: ext.next_claim_id,
        available: ext.supply_claim,
        supply: ext.supply,
    }
}

/// The interface extensions the canister serves.
pub fn extensions() -> (r: Vec<Extension>)
    ensures
        r@.len() == 3,
        r@[0]@ == "@ext/common"@,
        r@[1]@ == "@ext/allowance"@,
        r@[2]@ == "@ext/nonfungible"@,
{
    let mut r: Vec<Extension> = Vec::new();
    r.push(String::from_str("@ext/common"));
    r.push(String::from_str("@ext/allowance"));
    r.push(String::from_str("@ext/nonfungible"));
    r
}

/// The state after minting one token for each blob, in order.
pub open spec fn mint_all(s: StorageView, blobs: Seq<Option<Seq<u8>>>) -> StorageView
    decreases blobs.len(),
{
    if blobs.len() == 0 {
        s
    } else {
        mint_all(s, blobs.drop_last()).minted(blobs.last())
    }
}

/// The metadata blobs of mint requests.
pub open spec fn request_blobs(reqs: Seq<MintRequest>) -> Seq<Option<Seq<u8>>> {
    reqs.map_values(|r: MintRequest| blob_view(r.metadata))
}

/// Minting `n` tokens moves both counters up by `n`.
pub proof fn lemma_mint_all_counters(s: StorageView, blobs: Seq<Option<Seq<u8>>>)
    requires
        s.next_token_id + blobs.len() <= u32::MAX,
        s.supply + blobs.len() <= u32::MAX,
    ensures
        mint_all(s, blobs).next_token_id == s.next_token_id + blobs.len(),
        mint_all(s, blobs).supply == s.supply + blobs.len(),
        mint_all(s, blobs).reserve == s.reserve,
    decreases blobs.len(),
{
    if blobs.len() > 0 {
        lemma_mint_all_counters(s, blobs.drop_last());
    }
}

/// Mints one token per request, in order, and answers their indices. The call
/// traps, minting nothing, when a counter would go past `u32::MAX`.
pub fn batch_mint_nft(ext: &mut Storage, reqs: Vec<MintRequest>) -> (r: Result<
    Vec<TokenIndex>,
    Trap,
>)
    ensures
        old(ext).next_token_id + reqs@.len() > u32::MAX || old(ext).supply + reqs@.len()
            > u32::MAX ==> r == Err::<Vec<TokenIndex>, Trap>(Trap::Overflow) && final(ext)@ == old(ext)@,
        old(ext).next_token_id + reqs@.len() <= u32::MAX && old(ext).supply + reqs@.len()
            <= u32::MAX ==> (r matches Ok(ids) && ids@ == Seq::new(
            reqs@.len(),
            |i: int| (old(ext).next_token_id + i) as u32,
        ) && final(ext)@ == mint_all(old(ext)@, request_blobs(reqs@))),
{
    let n = reqs.len();
    if n as u64 > (u32::MAX - ext.next_token_id) as u64 || n as u64 > (u32::MAX
        - ext.supply) as u64 {
        return Err(Trap::Overflow);
    }
    let ghost rs = reqs@;
    let ghost start = old(ext)@;
    let mut res: Vec<TokenIndex> = Vec::new();
    for req in it: reqs.into_iter()
        invariant
            it.seq() == rs,
            rs.len() == n,
            start.next_token_id + n <= u32::MAX,
            start.supply + n <= u32::MAX,
            ext@ == mint_all(start, request_blobs(rs.subrange(0, it.index()))),
            res@ == Seq::new(it.index() as nat, |i: int| (start.next_token_id + i) as u32),
    {
        let ghost k = it.index();
        proof {
            assert(request_blobs(rs.subrange(0, k)) =~= request_blobs(rs).subrange(0, k));
            lemma_mint_all_counters(start, request_blobs(rs.subrange(0, k)));
            assert(request_blobs(rs.subrange(0, k + 1)).drop_last() =~= request_blobs(
                rs.subrange(0, k),
            ));
            assert(request_blobs(rs.subrange(0, k + 1)).last() == blob_view(req.metadata));
        }
        let token_index = Service::mint(ext, req);
        res.push(token_index);
        proof {
            assert(res@ =~= Seq::new((k + 1) as nat, |i: int| (start.next_token_id + i) as u32));
        }
    }
    proof {
        assert(rs.subrange(0, n as int) =~= rs);
    }
    Ok(res)
}

/// The ids, in their order, that have metadata.
pub open spec fn ids_with_metadata(m: Map<u32, MetadataView>, ids: Seq<u32>) -> Seq<u32>
    decreases ids.len(),
{
    if ids.len() == 0 {
        Seq::empty()
    } else {
        let rest = ids_with_metadata(m, ids.drop_last());
        if m.contains_key(ids.last()) {
            rest.push(ids.last())
        } else {
            rest
        }
    }
}

/// The metadata of the requested tokens, in the order asked, skipping ids that
/// have none.
pub fn get_tokens_by_ids(ext: &Storage, token_ids: Vec<TokenIndex>) -> (r: Vec<
    (TokenIndex, Metadata),
>)
    ensures
        r@.len() == ids_with_metadata(ext@.token_metadata, token_ids@).len(),
        forall|i: int|
            0 <= i < r@.len() ==> r@[i].0 == ids_with_metadata(ext@.token_metadata, token_ids@)[i]
                && ext@.token_metadata.contains_key(r@[i].0) && (#[trigger] r@[i]).1@
                == ext@.token_metadata[r@[i].0],
{
    let mut res: Vec<(TokenIndex, Metadata)> = Vec::new();
    let mut k: usize = 0;
    while k < token_ids.len()
        invariant
            k <= token_ids@.len(),
            res@.len() == ids_with_metadata(ext@.token_metadata, token_ids@.subrange(0, k as int)).len(),
            forall|i: int|
                0 <= i < res@.len() ==> res@[i].0 == ids_with_metadata(
                    ext@.token_metadata,
                    token_ids@.subrange(0, k as int),
                )[i] && ext@.token_metadata.contains_key(res@[i].0) && (#[trigger] res@[i]).1@
                    == ext@.token_metadata[res@[i].0],
        decreases token_ids@.len() - k,
    {
        let token_id = token_ids[k];
        proof {
            assert(token_ids@.subrange(0, k + 1).drop_last() =~= token_ids@.subrange(0, k as int));
        }
        match ext.token_metadata.get(&token_id) {
            Some(metadata) => res.push((token_id, metadata.duplicate())),
            None => {},
        }
        k = k + 1;
    }
    proof {
        assert(token_ids@.subrange(0, k as int) =~= token_ids@);
    }
    res
}

/// The tokens that the account holds, each once, in no set order.
pub fn tokens(ext: &Storage, owner: AccountIdentifier) -> (r: Result<Vec<TokenIndex>, CommonError>)
    ensures
        r matches Ok(v) && v@.no_duplicates() && forall|k: u32|
            v@.contains(k) <==> (ext@.registry.contains_key(k) && ext@.registry[k] == owner@),
{
    let mut out: Vec<TokenIndex> = Vec::new();
    let ghost entries = spec_hash_map_iter(&ext.registry).remaining();
    for kv in it: ext.registry.iter()
        invariant
            it.seq() == entries,
            entries == spec_hash_map_iter(&ext.registry).remaining(),
            entries.no_duplicates(),
            out@.no_duplicates(),
            forall|k: u32| out@.contains(k) <==> exists|j: int|
                0 <= j < it.index() && *(#[trigger] entries[j]).0 == k
                    && ext@.registry.contains_key(k) && ext@.registry[k] == owner@,
    {
        let ghost j0 = it.index();
        let (key, val) = kv;
        proof {
            assert(kv == entries[j0]);
            assert(ext.registry@.contains_key(*entries[j0].0));
        }
        let take = *val == owner;
        let ghost before = out@;
        if take {
            proof {
                if out@.contains(*key) {
                    let j = choose|j: int|
                        0 <= j < j0 && *(#[trigger] entries[j]).0 == *key
                            && ext@.registry.contains_key(*key) && ext@.registry[*key] == owner@;
                    assert(ext.registry@.contains_key(*entries[j].0));
                    assert(entries[j] == entries[j0]);
                }
            }
            out.push(*key);
        }
        proof {
            assert forall|k: u32| out@.contains(k) <==> exists|j: int|
                0 <= j < j0 + 1 && *(#[trigger] entries[j]).0 == k
                    && ext@.registry.contains_key(k) && ext@.registry[k] == owner@ by {
                if take {
                    lemma_push_contains(before, *key, k);
                }
                if k == *key && ext@.registry.contains_key(k) && ext@.registry[k] == owner@ {
                    assert(*entries[j0].0 == k);
                }
            }
        }
    }
    proof {
        assert forall|k: u32| ext@.registry.contains_key(k) && ext@.registry[k] == owner@ implies out@.contains(k) by {
            assert(entries.contains((&k, &ext.registry@[k])));
            let j = choose|j: int| 0 <= j < entries.len() && entries[j] == (&k, &ext.registry@[k]);
            assert(*entries[j].0 == k);
        }
    }
    Ok(out)
}

/// Every (token, owner) pair of the registry, each token once, in no set order.
pub fn get_registry(ext: &Storage) -> (r: Vec<(TokenIndex, AccountIdentifier)>)
    ensures
        forall|i: int| 0 <= i < r@.len() ==> ext@.registry.contains_key(#[trigger] r@[i].0)
            && ext@.registry[r@[i].0] == r@[i].1@,
        forall|i: int, j: int| 0 <= i < j < r@.len() ==> #[trigger] r@[i].0 != #[trigger] r@[j].0,
        forall|k: u32| ext@.registry.contains_key(k) ==> exists|i: int| 0 <= i < r@.len() && #[trigger] r@[i].0 == k,
{
    let mut out: Vec<(TokenIndex, AccountIdentifier)> = Vec::new();
    let ghost entries = spec_hash_map_iter(&ext.registry).remaining();
    for kv in it: ext.registry.iter()
        invariant
            it.seq() == entries,
            entries == spec_hash_map_iter(&ext.registry).remaining(),
            entries.no_duplicates(),
            out@.len() == it.index(),
            forall|i: int| 0 <= i < out@.len() ==> (#[trigger] out@[i]).0 == *entries[i].0
                && out@[i].1 == *entries[i].1,
    {
        let (key, val) = kv;
        out.push((*key, val.clone()));
    }
    proof {
        assert forall|i: int| 0 <= i < out@.len() implies ext@.registry.contains_key(#[trigger] out@[i].0)
            && ext@.registry[out@[i].0] == out@[i].1@ by {
            assert(ext.registry@.contains_key(*entries[i].0));
        }
        assert forall|i: int, j: int| 0 <= i < j < out@.len() implies #[trigger] out@[i].0 != #[trigger] out@[j].0 by {
            assert(ext.registry@.contains_key(*entries[i].0));
            assert(ext.registry@.contains_key(*entries[j].0));
            if out@[i].0 == out@[j].0 {
                assert(entries[i] == entries[j]);
            }
        }
        assert forall|k: u32| ext@.registry.contains_key(k) implies exists|i: int| 0 <= i < out@.len() && #[trigger] out@[i].0 == k by {
            assert(entries.contains((&k, &ext.registry@[k])));
            let j = choose|j: int| 0 <= j < entries.len() && entries[j] == (&k, &ext.registry@[k]);
            assert(out@[j].0 == k);
        }
    }
    out
}

/// Every (token, spender) pair of the allowances, each token once, in no set order.
pub fn get_allowances(ext: &Storage) -> (r: Vec<(TokenIndex, Principal)>)
    ensures
        forall|i: int| 0 <= i < r@.len() ==> ext@.allowance.contains_key(#[trigger] r@[i].0)
            && ext@.allowance[r@[i].0] == r@[i].1@,
        forall|i: int, j: int| 0 <= i < j < r@.len() ==> #[trigger] r@[i].0 != #[trigger] r@[j].0,
        forall|k: u32| ext@.allowance.contains_key(k) ==> exists|i: int| 0 <= i < r@.len() && #[trigger] r@[i].0 == k,
{
    let mut out: Vec<(TokenIndex, Principal)> = Vec::new();
    let ghost entries = spec_hash_map_iter(&ext.allowance).remaining();
    for kv in it: ext.allowance.iter()
        invariant
            it.seq() == entries,
            entries == spec_hash_map_iter(&ext.allowance).remaining(),
            entries.no_duplicates(),
            out@.len() == it.index(),
            forall|i: int| 0 <= i < out@.len() ==> (#[trigger] out@[i]).0 == *entries[i].0
                && out@[i].1@ == (*entries[i].1)@,
    {
        let (key, val) = kv;
        out.push((*key, val.duplicate()));
    }
    proof {
        assert forall|i: int| 0 <= i < out@.len() implies ext@.allowance.contains_key(#[trigger] out@[i].0)
            && ext@.allowance[out@[i].0] == out@[i].1@ by {
            assert(ext.allowance@.contains_key(*entries[i].0));
        }
        assert forall|i: int, j: int| 0 <= i < j < out@.len() implies #[trigger] out@[i].0 != #[trigger] out@[j].0 by {
            assert(ext.allowance@.contains_key(*entries[i].0));
            assert(ext.allowance@.contains_key(*entries[j].0));
            if out@[i].0 == out@[j].0 {
                assert(entries[i] == entries[j]);
            }
        }
        assert forall|k: u32| ext@.allowance.contains_key(k) implies exists|i: int| 0 <= i < out@.len() && #[trigger] out@[i].0 == k by {
            assert(entries.contains((&k, &ext.allowance@[k])));
            let j = choose|j: int| 0 <= j < entries.len() && entries[j] == (&k, &ext.allowance@[k]);
            assert(out@[j].0 == k);
        }
    }
    out
}

/// Whether listing a page of tokens faults: with a token present, the bounds of
/// page `page` (`10 * page` and then, for a token at or above it, `10 * (page + 1)`)
/// must fit in a `u32`.
pub open spec fn page_overflows(m: Map<u32, MetadataView>, page: u32) -> bool {
    exists|k: u32| m.contains_key(k) && #[trigger] faults_on_page(k, page)
}

/// Whether a token at index `k` makes listing page `page` fault.
pub open spec fn faults_on_page(k: u32, page: u32) -> bool {
    page > 429496729 || (page == 429496729 && k >= 4294967290)
}

/// Whether a token is on page `page`: its index is in `[10 * page, 10 * (page + 1))`.
pub open spec fn on_page(k: u32, page: u32) -> bool {
    10 * page <= k < 10 * (page + 1)
}

/// Whether listing page `page` faults.
fn check_page(ext: &Storage, page: u32) -> (r: bool)
    ensures
        r == page_overflows(ext@.token_metadata, page),
{
    let ghost m = ext@.token_metadata;
    let ghost entries = spec_hash_map_iter(&ext.token_metadata).remaining();
    let mut found = false;
    for kv in it: ext.token_metadata.iter()
        invariant
            it.seq() == entries,
            entries == spec_hash_map_iter(&ext.token_metadata).remaining(),
            m == ext@.token_metadata,
            found <==> exists|j: int| 0 <= j < it.index() && #[trigger] faults_on_page(*entries[j].0, page),
    {
        let ghost j0 = it.index();
        let (key, _val) = kv;
        proof {
            assert(kv == entries[j0]);
            assert(ext.token_metadata@.contains_key(*entries[j0].0));
        }
        if page > 429496729 || (page == 429496729 && *key >= 4294967290) {
            assert(faults_on_page(*entries[j0].0, page));
            found = true;
        }
    }
    proof {
        if found {
            let j = choose|j: int| 0 <= j < entries.len() && #[trigger] faults_on_page(*entries[j].0, page);
            assert(ext.token_metadata@.contains_key(*entries[j].0));
            assert(m.contains_key(*entries[j].0));
        }
        if page_overflows(m, page) && !found {
            let k = choose|k: u32| m.contains_key(k) && #[trigger] faults_on_page(k, page);
            assert(entries.contains((&k, &ext.token_metadata@[k])));
            let j = choose|j: int| 0 <= j < entries.len() && entries[j] == (&k, &ext.token_metadata@[k]);
            assert(*entries[j].0 == k);
        }
    }
    found
}

/// `v` lists the tokens of page `page` with their metadata, each once.
pub open spec fn page_listing(m: Map<u32, MetadataView>, page: u32, v: Seq<(u32, Metadata)>) -> bool {
    &&& forall|i: int|
        0 <= i < v.len() ==> m.contains_key(#[trigger] v[i].0) && on_page(v[i].0, page) && m[v[i].0]
            == v[i].1@
    &&& forall|i: int, j: int| 0 <= i < j < v.len() ==> #[trigger] v[i].0 != #[trigger] v[j].0
    &&& forall|k: u32|
        m.contains_key(k) && on_page(k, page) ==> exists|i: int| 0 <= i < v.len() && #[trigger] v[i].0 == k
}

/// The tokens of page `page` (ten indices per page) with their metadata, each once,
/// in no set order.
pub fn get_tokens(ext: &Storage, page: u32) -> (r: Result<Vec<(TokenIndex, Metadata)>, Trap>)
    ensures
        page_overflows(ext@.token_metadata, page) ==> r == Err::<
            Vec<(TokenIndex, Metadata)>,
            Trap,
        >(Trap::Overflow),
        !page_overflows(ext@.token_metadata, page) ==> (r matches Ok(v) && page_listing(
            ext@.token_metadata,
            page,
            v@,
        )),
{
    if check_page(ext, page) {
        return Err(Trap::Overflow);
    }
    let mut out: Vec<(TokenIndex, Metadata)> = Vec::new();
    let ghost m = ext@.token_metadata;
    let ghost entries = spec_hash_map_iter(&ext.token_metadata).remaining();
    let ghost mut src: Seq<int> = Seq::empty();
    let low: u64 = 10 * (page as u64);
    let high: u64 = 10 * (page as u64 + 1);
    for kv in it: ext.token_metadata.iter()
        invariant
            it.seq() == entries,
            entries == spec_hash_map_iter(&ext.token_metadata).remaining(),
            entries.no_duplicates(),
            m == ext@.token_metadata,
            low == 10 * page,
            high == 10 * (page + 1),
            forall|i: int| 0 <= i < out@.len() ==> m.contains_key(#[trigger] out@[i].0) && on_page(
                out@[i].0,
                page,
            ) && m[out@[i].0] == out@[i].1@,
            src.len() == out@.len(),
            forall|i: int| 0 <= i < out@.len() ==> 0 <= #[trigger] src[i] < it.index()
                && *entries[src[i]].0 == out@[i].0,
            forall|i: int, j: int| 0 <= i < j < out@.len() ==> #[trigger] out@[i].0 != #[trigger] out@[j].0,
            forall|j: int| 0 <= j < it.index() && on_page(*(#[trigger] entries[j]).0, page) ==> exists|i: int| 0 <= i < out@.len() && #[trigger] out@[i].0 == *entries[j].0,
    {
        let ghost j0 = it.index();
        let (key, val) = kv;
        proof {
            assert(kv == entries[j0]);
            assert(ext.token_metadata@.contains_key(*entries[j0].0));
        }
        let ghost before = out@;
        if (*key as u64) >= low && (*key as u64) < high {
            proof {
                assert forall|i: int| 0 <= i < before.len() implies #[trigger] before[i].0 != *key by {
                    let j = src[i];
                    assert(ext.token_metadata@.contains_key(*entries[j].0));
                    if before[i].0 == *key {
                        assert(entries[j] == entries[j0]);
                    }
                }
            }
            out.push((*key, val.duplicate()));
            proof { src = src.push(j0); }
        }
        proof {
            assert forall|j: int| 0 <= j < j0 + 1 && on_page(*(#[trigger] entries[j]).0, page) implies exists|i: int| 0 <= i < out@.len() && #[trigger] out@[i].0 == *entries[j].0 by {
                if j < j0 {
                    let i = choose|i: int| 0 <= i < before.len() && #[trigger] before[i].0 == *entries[j].0;
                    assert(out@[i] == before[i]);
                } else {
                    assert(out@[before.len() as int].0 == *entries[j].0);
                }
            }
        }
    }
    proof {
        assert forall|k: u32| m.contains_key(k) && on_page(k, page) implies exists|i: int| 0 <= i < out@.len() && #[trigger] out@[i].0 == k by {
            assert(entries.contains((&k, &ext.token_metadata@[k])));
            let j = choose|j: int| 0 <= j < entries.len() && entries[j] == (&k, &ext.token_metadata@[k]);
            assert(*entries[j].0 == k);
        }
    }
    assert(page_listing(ext@.token_metadata, page, out@));
    Ok(out)
}

/// Whether every character is an ASCII digit.
pub open spec fn all_digits(s: Seq<char>) -> bool {
    forall|i: int| 0 <= i < s.len() ==> '0' <= #[trigger] s[i] <= '9'
}

/// The number that a string of decimal digits stands for.
pub open spec fn decimal_value(s: Seq<char>) -> int
    decreases s.len(),
{
    if s.len() == 0 {
        0
    } else {
        decimal_value(s.drop_last()) * 10 + (s.last() as int - '0' as int)
    }
}

/// What `str::parse::<u32>` reads from a text: an optional `+` and then one or more
/// ASCII digits whose value fits in a `u32`; anything else is refused.
pub open spec fn parsed_u32(s: Seq<char>) -> Option<u32> {
    let d = if s.len() > 0 && s[0] == '+' {
        s.drop_first()
    } else {
        s
    };
    if d.len() > 0 && all_digits(d) && decimal_value(d) <= u32::MAX {
        Some(decimal_value(d) as u32)
    } else {
        None
    }
}

/// The value of a string of digits is at least that of any of its prefixes.
proof fn lemma_decimal_prefix(t: Seq<char>, k: int)
    requires
        all_digits(t),
        0 <= k <= t.len(),
    ensures
        decimal_value(t) >= decimal_value(t.subrange(0, k)),
        decimal_value(t) >= 0,
    decreases t.len(),
{
    if t.len() > 0 {
        assert(all_digits(t.drop_last()));
        assert('0' <= t[t.len() - 1] <= '9');
        if k < t.len() {
            assert(t.drop_last().subrange(0, k) =~= t.subrange(0, k));
            lemma_decimal_prefix(t.drop_last(), k);
        } else {
            assert(t.subrange(0, k) =~= t);
            lemma_decimal_prefix(t.drop_last(), 0);
        }
    }
}

/// Reads a decimal `u32` as `str::parse::<u32>` does: an optional `+`, then one or
/// more ASCII digits whose value fits in a `u32`; anything else gives `None`.
fn parse_u32(s: &str) -> (r: Option<u32>)
    ensures
        r == parsed_u32(s@),
{
    let mut chars: Vec<char> = Vec::new();
    for c in it: s.chars()
        invariant
            it.seq() == s@,
            chars@ == s@.subrange(0, it.index()),
    {
        chars.push(c);
        proof {
            assert(chars@ =~= s@.subrange(0, it.index() + 1));
        }
    }
    assert(chars@ =~= s@);
    let n = chars.len();
    let mut i: usize = 0;
    if n > 0 && chars[0] == '+' {
        i = 1;
    }
    let start = i;
    let ghost d = chars@.subrange(start as int, n as int);
    proof {
        if n > 0 && chars@[0] == '+' {
            assert(d =~= s@.drop_first());
        } else {
            assert(d =~= s@);
        }
    }
    if start == n {
        return None;
    }
    let mut value: u64 = 0;
    while i < n
        invariant
            start <= i <= n,
            n == chars@.len(),
            d == chars@.subrange(start as int, n as int),
            d.len() > 0,
            parsed_u32(s@) == (if all_digits(d) && decimal_value(d) <= u32::MAX {
                Some(decimal_value(d) as u32)
            } else {
                None::<u32>
            }),
            all_digits(chars@.subrange(start as int, i as int)),
            value == decimal_value(chars@.subrange(start as int, i as int)),
            value <= u32::MAX,
        decreases n - i,
    {
        let c = chars[i];
        let ghost before = chars@.subrange(start as int, i as int);
        let ghost after = chars@.subrange(start as int, i + 1);
        proof {
            assert(after.drop_last() =~= before);
            assert(after.last() == c);
        }
        if !('0' <= c && c <= '9') {
            proof {
                assert(d[i - start] == c);
            }
            return None;
        }
        let digit: u64 = (c as u32 - '0' as u32) as u64;
        value = value * 10 + digit;
        proof {
            assert(all_digits(after));
        }
        if value > u32::MAX as u64 {
            proof {
                if all_digits(d) {
                    assert(d.subrange(0, i + 1 - start) =~= after);
                    lemma_decimal_prefix(d, i + 1 - start);
                }
            }
            return None;
        }
        i = i + 1;
    }
    proof {
        assert(chars@.subrange(start as int, i as int) =~= d);
    }
    Some(value as u32)
}

/// Whether `caller` holds the token that the (readable) text names in this canister.
fn may_approve_exec(ext: &Storage, tid: &TokenIdentifier, caller: &Principal, canister: &Principal) -> (r: bool)
    requires
        token_text_valid(tid@),
    ensures
        r == ext@.may_approve(tid@, caller@, canister@),
{
    if !crate::token_id::is_principal(tid.clone(), canister.duplicate()) {
        return false;
    }
    let token = crate::token_id::get_index(tid.clone());
    let owner = crate::account::from_principal(caller.duplicate());
    match ext.registry.get(&token) {
        Some(token_owner) => owner == *token_owner,
        None => false,
    }
}

/// The fault, if any, that approving one request hits.
pub open spec fn approve_fault(s: StorageView, req: ApproveRequest, caller: Seq<u8>, canister: Seq<u8>) -> Option<Trap> {
    match token_fault(req.token@) {
        Some(t) => Some(t),
        None => if s.may_approve(req.token@, caller, canister) && parsed_u32(req.token@) is None {
            Some(Trap::NotANumber(req.token))
        } else {
            None
        },
    }
}

/// The first fault that approving the requests in order hits.
pub open spec fn approve_all_fault(s: StorageView, reqs: Seq<ApproveRequest>, caller: Seq<u8>, canister: Seq<u8>) -> Option<Trap>
    decreases reqs.len(),
{
    if reqs.len() == 0 {
        None
    } else {
        let f = approve_all_fault(s, reqs.drop_last(), caller, canister);
        if f is Some {
            f
        } else {
            approve_fault(s, reqs.last(), caller, canister)
        }
    }
}

/// The state after approving the requests in order; requests for tokens the caller
/// does not hold change nothing.
pub open spec fn approve_all_state(s: StorageView, reqs: Seq<ApproveRequest>, caller: Seq<u8>, canister: Seq<u8>) -> StorageView
    decreases reqs.len(),
{
    if reqs.len() == 0 {
        s
    } else {
        let prev = approve_all_state(s, reqs.drop_last(), caller, canister);
        let r = reqs.last();
        if s.may_approve(r.token@, caller, canister) {
            prev.approved(decoded_index(r.token@), r.spender@)
        } else {
            prev
        }
    }
}

/// The numbers read from the texts of the requests that were approved, in order.
pub open spec fn approve_all_ids(s: StorageView, reqs: Seq<ApproveRequest>, caller: Seq<u8>, canister: Seq<u8>) -> Seq<u32>
    decreases reqs.len(),
{
    if reqs.len() == 0 {
        Seq::empty()
    } else {
        let prev = approve_all_ids(s, reqs.drop_last(), caller, canister);
        let r = reqs.last();
        if s.may_approve(r.token@, caller, canister) {
            prev.push(parsed_u32(r.token@)->0)
        } else {
            prev
        }
    }
}

/// Approving leaves the owners as they were.
proof fn lemma_approve_all_registry(s: StorageView, reqs: Seq<ApproveRequest>, caller: Seq<u8>, canister: Seq<u8>)
    ensures
        approve_all_state(s, reqs, caller, canister).registry == s.registry,
    decreases reqs.len(),
{
    if reqs.len() > 0 {
        lemma_approve_all_registry(s, reqs.drop_last(), caller, canister);
    }
}

/// Approves each request in turn on behalf of `caller` and answers, for each one
/// approved, the number its token text reads as in decimal. The call traps, approving
/// nothing, at the first request whose token text cannot be read, or that is approved
/// but does not read as a decimal `u32`.
pub fn approve_all(ext: &mut Storage, reqs: Vec<ApproveRequest>, caller: Principal, canister: Principal) -> (r: Result<Vec<TokenIndex>, Trap>)
    ensures
        match approve_all_fault(old(ext)@, reqs@, caller@, canister@) {
            Some(t) => r == Err::<Vec<TokenIndex>, Trap>(t) && final(ext)@ == old(ext)@,
            None => (r matches Ok(v) && v@ == approve_all_ids(old(ext)@, reqs@, caller@, canister@))
                && final(ext)@ == approve_all_state(old(ext)@, reqs@, caller@, canister@),
        },
{
    let ghost start = ext@;
    let n = reqs.len();
    let mut i: usize = 0;
    while i < n
        invariant
            n == reqs@.len(),
            i <= n,
            ext@ == start,
            approve_all_fault(start, reqs@.subrange(0, i as int), caller@, canister@) is None,
        decreases n - i,
    {
        proof {
            assert(reqs@.subrange(0, i + 1).drop_last() =~= reqs@.subrange(0, i as int));
        }
        let tid = &reqs[i].token;
        match check_token_text(tid.as_str()) {
            Some(t) => {
                proof {
                    lemma_fault_prefix(start, reqs@, i as int + 1, caller@, canister@);
                }
                return Err(t);
            },
            None => {},
        }
        if may_approve_exec(ext, tid, &caller, &canister) && parse_u32(tid.as_str()).is_none() {
            proof {
                lemma_fault_prefix(start, reqs@, i as int + 1, caller@, canister@);
            }
            return Err(Trap::NotANumber(tid.clone()));
        }
        i = i + 1;
    }
    proof {
        assert(reqs@.subrange(0, n as int) =~= reqs@);
    }
    let mut resp: Vec<TokenIndex> = Vec::new();
    let mut k: usize = 0;
    while k < n
        invariant
            n == reqs@.len(),
            k <= n,
            approve_all_fault(start, reqs@, caller@, canister@) is None,
            ext@ == approve_all_state(start, reqs@.subrange(0, k as int), caller@, canister@),
            resp@ == approve_all_ids(start, reqs@.subrange(0, k as int), caller@, canister@),
        decreases n - k,
    {
        proof {
            assert(reqs@.subrange(0, k + 1).drop_last() =~= reqs@.subrange(0, k as int));
            lemma_no_fault_each(start, reqs@, k as int, caller@, canister@);
            lemma_approve_all_registry(start, reqs@.subrange(0, k as int), caller@, canister@);
        }
        let req = &reqs[k];
        let copy = ApproveRequest {
            token: req.token.clone(),
            subaccount: copy_blob(&req.subaccount),
            allowance: req.allowance,
            spender: req.spender.duplicate(),
        };
        let success = Service::approve(ext, copy, caller.duplicate(), canister.duplicate());
        if success {
            match parse_u32(req.token.as_str()) {
                Some(token_index) => resp.push(token_index),
                None => {
                    proof { assert(false); }
                },
            }
        }
        k = k + 1;
    }
    proof {
        assert(reqs@.subrange(0, n as int) =~= reqs@);
    }
    Ok(resp)
}

/// A fault in a prefix is the first fault of the whole list up to that prefix.
proof fn lemma_fault_prefix(s: StorageView, reqs: Seq<ApproveRequest>, m: int, caller: Seq<u8>, canister: Seq<u8>)
    requires
        0 < m <= reqs.len(),
        approve_all_fault(s, reqs.subrange(0, m - 1), caller, canister) is None,
        approve_fault(s, reqs[m - 1], caller, canister) is Some,
    ensures
        approve_all_fault(s, reqs, caller, canister) == approve_fault(s, reqs[m - 1], caller, canister),
    decreases reqs.len(),
{
    assert(reqs.subrange(0, m).drop_last() =~= reqs.subrange(0, m - 1));
    if m < reqs.len() {
        assert(reqs.drop_last().subrange(0, m - 1) =~= reqs.subrange(0, m - 1));
        assert(reqs.drop_last()[m - 1] == reqs[m - 1]);
        lemma_fault_prefix(s, reqs.drop_last(), m, caller, canister);
    } else {
        assert(reqs.subrange(0, m) =~= reqs);
    }
}

/// Without a fault in the whole list, no request faults.
proof fn lemma_no_fault_each(s: StorageView, reqs: Seq<ApproveRequest>, k: int, caller: Seq<u8>, canister: Seq<u8>)
    requires
        0 <= k < reqs.len(),
        approve_all_fault(s, reqs, caller, canister) is None,
    ensures
        approve_fault(s, reqs[k], caller, canister) is None,
    decreases reqs.len(),
{
    if k < reqs.len() - 1 {
        assert(reqs.drop_last()[k] == reqs[k]);
        lemma_no_fault_each(s, reqs.drop_last(), k, caller, canister);
    }
}

/// Makes `minter` the minter.
pub fn set_minter(ext: &mut Storage, minter: Principal)
    ensures
        final(ext)@ == (StorageView { minter: minter@, ..old(ext)@ }),
{
    ext.minter = minter;
}

/// The minter.
pub fn get_minter(ext: &Storage) -> (r: Principal)
    ensures
        r@ == ext@.minter,
{
    ext.minter.duplicate()
}

/// The number of tokens minted so far, whatever the token text.
pub fn supply(ext: &Storage, _token_identifier: TokenIdentifier) -> (r: Result<Balance, CommonError>)
    ensures
        r == Ok::<Balance, CommonError>(ext.supply),
{
    Ok(ext.supply)
}

/// The index the next claim takes.
pub fn next_claim_id(ext: &Storage) -> (r: Result<Balance, CommonError>)
    ensures
        r == Ok::<Balance, CommonError>(ext.next_claim_id),
{
    Ok(ext.next_claim_id)
}

/// How many tokens can be claimed in all.
pub fn claim_supply(ext: &Storage) -> (r: Result<Balance, CommonError>)
    ensures
        r == Ok::<Balance, CommonError>(ext.supply_claim),
{
    Ok(ext.supply_claim)
}

/// A fixed user, the address "0".
pub fn test() -> (r: User)
    ensures
        r matches User::Address(a) && a@ == "0"@,
{
    User::Address(String::from_str("0"))
}

} // verus!
