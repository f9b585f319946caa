//! Properties that tie the registry's operations together.

use vstd::prelude::*;
use vstd::utf8::encode_utf8;

use crate::account::{account_identifier_text, user_account};
use crate::principal::Principal;
use crate::storage::{
    allowance_post, approve_post, balance_post, lemma_push_contains, metadata_post, owner_of_post,
    transfer_post, unclaimed_owner, StorageView,
};
use crate::canister::{
    approve_all_state, faults_on_page, ids_with_metadata, lemma_mint_all_counters, mint_all,
    on_page, request_blobs,
};
use crate::token_id::{decoded_canister, decoded_index};
use crate::types::{
    blob_view, AccountIdentifier, ApproveRequest, Balance, BalanceResponse, CommonError, Metadata,
    MetadataView, MintRequest, TokenIdentifier, TransferError, TransferResponse, User,
};

verus! {

/// After a transfer succeeds, the token's bearer is the account it was sent to and
/// that account's balance of it is 1.
pub proof fn law_transfer_then_bearer(
    s: StorageView,
    s2: StorageView,
    tid: TokenIdentifier,
    from: User,
    to: User,
    caller: Principal,
    canister: Principal,
    r: TransferResponse,
    owner: Result<AccountIdentifier, CommonError>,
    bal: BalanceResponse,
)
    requires
        transfer_post(s, s2, tid, from, to, caller, canister, r),
        r is Ok,
        owner_of_post(s2, tid, canister, owner),
        balance_post(s2, tid, to, canister, bal),
    ensures
        owner matches Ok(o) && o@ == user_account(to),
        bal == Ok::<Balance, CommonError>(1),
        !s2.allowance.contains_key(decoded_index(tid@)),
{
}

/// A refused transfer changes nothing.
pub proof fn law_refused_transfer_changes_nothing(
    s: StorageView,
    s2: StorageView,
    tid: TokenIdentifier,
    from: User,
    to: User,
    caller: Principal,
    canister: Principal,
    r: TransferResponse,
)
    requires
        transfer_post(s, s2, tid, from, to, caller, canister, r),
        r is Err,
    ensures
        s2 == s,
{
}

/// After the holder approves a spender, asking whether that spender may move the
/// token (with the holder as owner) answers 1, and the spender may then transfer it.
pub proof fn law_approve_then_allowance(
    s: StorageView,
    s2: StorageView,
    tid: TokenIdentifier,
    spender: Principal,
    caller: Principal,
    canister: Principal,
    owner: User,
    r: Result<Balance, CommonError>,
)
    requires
        approve_post(s, s2, tid, spender, caller, canister, true),
        user_account(owner) == account_identifier_text(caller@),
        allowance_post(s2, tid, owner, spender, canister, r),
    ensures
        r == Ok::<Balance, CommonError>(1),
        s2.may_move(decoded_index(tid@), user_account(owner), spender@),
{
}

/// A refused approval changes nothing.
pub proof fn law_refused_approval_changes_nothing(
    s: StorageView,
    s2: StorageView,
    tid: TokenIdentifier,
    spender: Principal,
    caller: Principal,
    canister: Principal,
)
    requires
        approve_post(s, s2, tid, spender, caller, canister, false),
    ensures
        s2 == s,
{
}

/// An account claims at most once: once it has claimed, it cannot claim again, and
/// the token it got is registered to it.
pub proof fn law_claim_once(s: StorageView, account: Seq<char>)
    requires
        s.can_claim(account),
    ensures
        !s.claimed_by(account).can_claim(account),
        s.claimed_by(account).registry[s.next_claim_id] == account,
        s.claimed_by(account).claimed[account] == s.next_claim_id,
{
}

/// A reserved token handed to an account (an account text has at least 18 bytes)
/// cannot be handed out again.
pub proof fn law_reserve_handed_out_once(s: StorageView, token: u32, account: Seq<char>)
    requires
        encode_utf8(account).len() >= 18,
    ensures
        !s.assigned(token, account).reserve_open(token),
{
}

/// A freshly minted token is held by the placeholder owner; below the reserve it is
/// one of the reserved tokens still to hand out.
pub proof fn law_minted_token_unclaimed(s: StorageView, metadata: Option<Seq<u8>>)
    ensures
        s.minted(metadata).registry[s.next_token_id] == unclaimed_owner(),
        s.next_token_id < s.reserve ==> s.minted(metadata).is_reserved_unclaimed(s.next_token_id),
{
}

/// Once added, a manager is a manager.
pub proof fn law_added_manager_is_manager(s: StorageView, p: Seq<u8>)
    ensures
        s.with_manager(p).manager.contains_key(p),
{
}

/// An upgrade keeps every token, owner, allowance, manager, claim and counter; only
/// the reserve starts again at 0.
pub proof fn law_upgrade_keeps_state(s: StorageView)
    ensures
        s.after_upgrade().registry == s.registry,
        s.after_upgrade().allowance == s.allowance,
        s.after_upgrade().token_metadata == s.token_metadata,
        s.after_upgrade().manager == s.manager,
        s.after_upgrade().claimed == s.claimed,
        s.after_upgrade().minter == s.minter,
        s.after_upgrade().next_token_id == s.next_token_id,
        s.after_upgrade().next_claim_id == s.next_claim_id,
        s.after_upgrade().supply == s.supply,
        s.after_upgrade().supply_claim == s.supply_claim,
        s.after_upgrade().reserve == 0,
{
}

/// Minting keeps the bookkeeping consistent.
pub proof fn law_mint_keeps_consistent(s: StorageView, metadata: Option<Seq<u8>>)
    requires
        s.consistent(),
        s.next_token_id < u32::MAX,
    ensures
        s.minted(metadata).consistent(),
{
}

/// Minting a batch keeps the bookkeeping consistent.
pub proof fn law_mint_all_keeps_consistent(s: StorageView, blobs: Seq<Option<Seq<u8>>>)
    requires
        s.consistent(),
        s.next_token_id + blobs.len() <= u32::MAX,
    ensures
        mint_all(s, blobs).consistent(),
    decreases blobs.len(),
{
    if blobs.len() > 0 {
        law_mint_all_keeps_consistent(s, blobs.drop_last());
        lemma_mint_all_counters(s, blobs.drop_last());
    }
}

/// Claiming (within the claim supply) keeps the bookkeeping consistent: the claimed
/// token was minted already.
pub proof fn law_claim_keeps_consistent(s: StorageView, account: Seq<char>)
    requires
        s.consistent(),
        s.next_claim_id < s.supply_claim,
    ensures
        s.claimed_by(account).consistent(),
{
}

/// Handing out a reserved token keeps the bookkeeping consistent.
pub proof fn law_assign_keeps_consistent(s: StorageView, token: u32, account: Seq<char>)
    requires
        s.consistent(),
        s.reserve_open(token),
    ensures
        s.assigned(token, account).consistent(),
{
}

/// A transfer keeps the bookkeeping consistent.
pub proof fn law_transfer_keeps_consistent(s: StorageView, token: u32, account: Seq<char>)
    requires
        s.consistent(),
        s.registry.contains_key(token),
    ensures
        s.transferred(token, account).consistent(),
{
}

/// Approvals, in any number, keep the bookkeeping consistent.
pub proof fn law_approve_all_keeps_consistent(s: StorageView, reqs: Seq<ApproveRequest>, caller: Seq<u8>, canister: Seq<u8>)
    requires
        s.consistent(),
    ensures
        approve_all_state(s, reqs, caller, canister).consistent(),
    decreases reqs.len(),
{
    if reqs.len() > 0 {
        law_approve_all_keeps_consistent(s, reqs.drop_last(), caller, canister);
    }
}

/// Adding a manager keeps the bookkeeping consistent.
pub proof fn law_manager_keeps_consistent(s: StorageView, p: Seq<u8>)
    requires
        s.consistent(),
    ensures
        s.with_manager(p).consistent(),
{
}

/// Setting the reserve, or a claim supply within the supply, keeps the bookkeeping
/// consistent.
pub proof fn law_campaign_settings_keep_consistent(s: StorageView, rsv: u32, claim: u32)
    requires
        s.consistent(),
        claim <= s.supply,
    ensures
        (StorageView { reserve: rsv, next_claim_id: rsv, ..s }).consistent(),
        (StorageView { supply_claim: claim, ..s }).consistent(),
{
}

/// An upgrade keeps the bookkeeping consistent.
pub proof fn law_upgrade_keeps_consistent(s: StorageView)
    requires
        s.consistent(),
    ensures
        s.after_upgrade().consistent(),
{
}

/// A token has one holder: two users whose balance of it is 1 stand for the same account.
pub proof fn law_single_holder(
    s: StorageView,
    tid: TokenIdentifier,
    u1: User,
    u2: User,
    canister: Principal,
    b1: BalanceResponse,
    b2: BalanceResponse,
)
    requires
        balance_post(s, tid, u1, canister, b1),
        balance_post(s, tid, u2, canister, b2),
        b1 == Ok::<Balance, CommonError>(1),
        b2 == Ok::<Balance, CommonError>(1),
    ensures
        user_account(u1) == user_account(u2),
{
}

/// Once the reserve is set, claims start right after it and never take a reserved
/// token: the next claim stays at or above the reserve.
pub proof fn law_claims_stay_above_reserve(s: StorageView, rsv: u32, account: Seq<char>)
    requires
        s.next_claim_id >= s.reserve,
        s.next_claim_id < u32::MAX,
    ensures
        (StorageView { reserve: rsv, next_claim_id: rsv, ..s }).next_claim_id >= rsv,
        s.claimed_by(account).next_claim_id >= s.claimed_by(account).reserve,
        !s.claimed_by(account).is_reserved_unclaimed(s.next_claim_id),
{
}

/// A change that a call can make to the registry, given by its arguments as plain
/// values (account texts, principal bytes, metadata blobs).
pub enum Step {
    /// `mintNFT`.
    Mint(Option<Seq<u8>>),
    /// `batchMintNFT`.
    MintAll(Seq<Option<Seq<u8>>>),
    /// `claimNFT` by the account.
    Claim(Seq<char>),
    /// `force_claim_reserve` of a token to an account.
    Assign(u32, Seq<char>),
    /// A transfer of a token to an account that is let through.
    Transfer(u32, Seq<char>),
    /// An approval of a spender that is let through.
    Approve(u32, Seq<u8>),
    /// `approveAll` on behalf of a caller in a canister.
    ApproveAll(Seq<ApproveRequest>, Seq<u8>, Seq<u8>),
    /// `add_manager` (and `init`).
    AddManager(Seq<u8>),
    /// `setMinter`.
    SetMinter(Seq<u8>),
    /// `init_reserve`.
    InitReserve(u32),
    /// `set_claim_supply`.
    SetClaimSupply(u32),
    /// An upgrade.
    Upgrade,
    /// A call that traps or is refused, or only reads.
    Refused,
}

/// The state after one step, as the entry point that makes it decides; a step that
/// the entry point refuses leaves the state as it was.
pub open spec fn apply(s: StorageView, step: Step) -> StorageView {
    match step {
        Step::Mint(blob) => if s.next_token_id < u32::MAX && s.supply < u32::MAX {
            s.minted(blob)
        } else {
            s
        },
        Step::MintAll(blobs) => if s.next_token_id + blobs.len() <= u32::MAX && s.supply
            + blobs.len() <= u32::MAX {
            mint_all(s, blobs)
        } else {
            s
        },
        Step::Claim(a) => if s.next_claim_id < s.supply_claim && s.can_claim(a) {
            s.claimed_by(a)
        } else {
            s
        },
        Step::Assign(t, a) => if s.reserve_open(t) {
            s.assigned(t, a)
        } else {
            s
        },
        Step::Transfer(t, a) => if s.registry.contains_key(t) {
            s.transferred(t, a)
        } else {
            s
        },
        Step::Approve(t, p) => s.approved(t, p),
        Step::ApproveAll(reqs, caller, canister) => approve_all_state(s, reqs, caller, canister),
        Step::AddManager(p) => s.with_manager(p),
        Step::SetMinter(p) => StorageView { minter: p, ..s },
        Step::InitReserve(rsv) => if rsv < s.supply && s.next_claim_id < 2 {
            StorageView { reserve: rsv, next_claim_id: rsv, ..s }
        } else {
            s
        },
        Step::SetClaimSupply(c) => if c == 0 {
            StorageView { supply_claim: s.supply, ..s }
        } else if s.reserve < c <= s.supply {
            StorageView { supply_claim: c, ..s }
        } else {
            s
        },
        Step::Upgrade => s.after_upgrade(),
        Step::Refused => s,
    }
}

/// The state after the steps, in order.
pub open spec fn apply_all(s: StorageView, steps: Seq<Step>) -> StorageView
    decreases steps.len(),
{
    if steps.len() == 0 {
        s
    } else {
        apply(apply_all(s, steps.drop_last()), steps.last())
    }
}

proof fn lemma_mint_all_claimed(s: StorageView, blobs: Seq<Option<Seq<u8>>>)
    ensures
        mint_all(s, blobs).claimed == s.claimed,
    decreases blobs.len(),
{
    if blobs.len() > 0 {
        lemma_mint_all_claimed(s, blobs.drop_last());
    }
}

proof fn lemma_approve_all_claimed(s: StorageView, reqs: Seq<ApproveRequest>, caller: Seq<u8>, canister: Seq<u8>)
    ensures
        approve_all_state(s, reqs, caller, canister).claimed == s.claimed,
    decreases reqs.len(),
{
    if reqs.len() > 0 {
        lemma_approve_all_claimed(s, reqs.drop_last(), caller, canister);
    }
}

/// No step takes back a claim: an account that has claimed keeps its claimed token
/// index through any steps that follow, so it can never claim again.
pub proof fn law_claims_are_never_undone(s: StorageView, steps: Seq<Step>, account: Seq<char>)
    requires
        s.claimed.contains_key(account),
    ensures
        apply_all(s, steps).claimed.contains_key(account),
        apply_all(s, steps).claimed[account] == s.claimed[account],
        !apply_all(s, steps).can_claim(account),
    decreases steps.len(),
{
    if steps.len() > 0 {
        law_claims_are_never_undone(s, steps.drop_last(), account);
        let p = apply_all(s, steps.drop_last());
        match steps.last() {
            Step::MintAll(blobs) => lemma_mint_all_claimed(p, blobs),
            Step::ApproveAll(reqs, caller, canister) => lemma_approve_all_claimed(p, reqs, caller, canister),
            _ => {},
        }
    }
}

/// Any steps keep the bookkeeping consistent.
pub proof fn law_steps_keep_consistent(s: StorageView, steps: Seq<Step>)
    requires
        s.consistent(),
    ensures
        apply_all(s, steps).consistent(),
    decreases steps.len(),
{
    if steps.len() > 0 {
        law_steps_keep_consistent(s, steps.drop_last());
        let p = apply_all(s, steps.drop_last());
        match steps.last() {
            Step::MintAll(blobs) => {
                if p.next_token_id + blobs.len() <= u32::MAX && p.supply + blobs.len() <= u32::MAX {
                    law_mint_all_keeps_consistent(p, blobs);
                }
            },
            Step::ApproveAll(reqs, caller, canister) => law_approve_all_keeps_consistent(p, reqs, caller, canister),
            _ => {},
        }
    }
}

/// What a transfer answers, in terms of the registry and the allowances alone: it
/// goes through exactly when the text names an existing token of this canister, the
/// `from` account holds it, and the caller either is that holder (whatever spender
/// is approved) or is the approved spender. Then it answers 1, the token belongs to
/// `to`, its allowance is gone and nothing else changes; otherwise nothing changes.
pub proof fn law_transfer_outcome(
    s: StorageView,
    s2: StorageView,
    tid: TokenIdentifier,
    from: User,
    to: User,
    caller: Principal,
    canister: Principal,
    r: TransferResponse,
)
    requires
        transfer_post(s, s2, tid, from, to, caller, canister, r),
    ensures
        r is Ok <==> ({
            let token = decoded_index(tid@);
            &&& decoded_canister(tid@) == canister@
            &&& s.registry.contains_key(token)
            &&& s.registry[token] == user_account(from)
            &&& (account_identifier_text(caller@) == user_account(from) || (s.allowance.contains_key(
                token,
            ) && s.allowance[token] == caller@))
        }),
        r is Ok ==> r == Ok::<Balance, TransferError>(1) && s2.registry == s.registry.insert(
            decoded_index(tid@),
            user_account(to),
        ) && s2.allowance == s.allowance.remove(decoded_index(tid@)) && s2.claimed == s.claimed
            && s2.token_metadata == s.token_metadata && s2.manager == s.manager && s2.next_token_id
            == s.next_token_id && s2.next_claim_id == s.next_claim_id && s2.supply == s.supply,
        r is Err ==> s2 == s,
{
}

/// The holder of a token moves it on her own call, whoever is approved for it.
pub proof fn law_holder_transfers_despite_allowance(
    s: StorageView,
    s2: StorageView,
    tid: TokenIdentifier,
    from: User,
    to: User,
    caller: Principal,
    canister: Principal,
    r: TransferResponse,
)
    requires
        transfer_post(s, s2, tid, from, to, caller, canister, r),
        decoded_canister(tid@) == canister@,
        s.registry.contains_key(decoded_index(tid@)),
        s.registry[decoded_index(tid@)] == user_account(from),
        account_identifier_text(caller@) == user_account(from),
    ensures
        r == Ok::<Balance, TransferError>(1),
        s2.registry[decoded_index(tid@)] == user_account(to),
{
}

/// What a balance query answers for an existing token: 1 exactly when the user's
/// account is the registered holder, 0 otherwise.
pub proof fn law_balance_reads_holder(
    s: StorageView,
    tid: TokenIdentifier,
    user: User,
    canister: Principal,
    r: BalanceResponse,
)
    requires
        balance_post(s, tid, user, canister, r),
        decoded_canister(tid@) == canister@,
        s.registry.contains_key(decoded_index(tid@)),
    ensures
        r == Ok::<Balance, CommonError>(
            if user_account(user) == s.registry[decoded_index(tid@)] {
                1
            } else {
                0
            },
        ),
{
}

/// Approving a spender changes no balance and no bearer.
pub proof fn law_approve_keeps_balances(
    s: StorageView,
    s2: StorageView,
    tid: TokenIdentifier,
    spender: Principal,
    caller: Principal,
    canister: Principal,
    approved: bool,
    tid2: TokenIdentifier,
    user: User,
    b1: BalanceResponse,
    b2: BalanceResponse,
    o1: Result<AccountIdentifier, CommonError>,
    o2: Result<AccountIdentifier, CommonError>,
)
    requires
        approve_post(s, s2, tid, spender, caller, canister, approved),
        balance_post(s, tid2, user, canister, b1),
        balance_post(s2, tid2, user, canister, b2),
        owner_of_post(s, tid2, canister, o1),
        owner_of_post(s2, tid2, canister, o2),
    ensures
        b1 == b2,
        o1 is Ok <==> o2 is Ok,
        o1 matches Ok(a1) ==> (o2 matches Ok(a2) && a1@ == a2@),
{
}

/// What an approval answers: true exactly when the text names an existing token of
/// this canister held by the caller's account; then the spender is recorded for it
/// and nothing else changes, otherwise nothing changes.
pub proof fn law_approve_outcome(
    s: StorageView,
    s2: StorageView,
    tid: TokenIdentifier,
    spender: Principal,
    caller: Principal,
    canister: Principal,
    r: bool,
)
    requires
        approve_post(s, s2, tid, spender, caller, canister, r),
    ensures
        r <==> (decoded_canister(tid@) == canister@ && s.registry.contains_key(decoded_index(tid@))
            && s.registry[decoded_index(tid@)] == account_identifier_text(caller@)),
        r ==> s2.allowance == s.allowance.insert(decoded_index(tid@), spender@) && s2.registry
            == s.registry && s2.claimed == s.claimed,
        !r ==> s2 == s,
{
}

/// What an allowance query answers for an existing token held by `from`: 1 exactly
/// when `spender` is the approved spender, 0 otherwise.
pub proof fn law_allowance_reads_spender(
    s: StorageView,
    tid: TokenIdentifier,
    from: User,
    spender: Principal,
    canister: Principal,
    r: Result<Balance, CommonError>,
)
    requires
        allowance_post(s, tid, from, spender, canister, r),
        decoded_canister(tid@) == canister@,
        s.registry.contains_key(decoded_index(tid@)),
        s.registry[decoded_index(tid@)] == user_account(from),
    ensures
        r == Ok::<Balance, CommonError>(
            if s.allowance.contains_key(decoded_index(tid@)) && s.allowance[decoded_index(tid@)]
                == spender@ {
                1
            } else {
                0
            },
        ),
{
}

/// The bearer of an existing token of this canister is its registered holder; a text
/// that names no such token is answered with an invalid-token error.
pub proof fn law_bearer_reads_holder(
    s: StorageView,
    tid: TokenIdentifier,
    canister: Principal,
    r: Result<AccountIdentifier, CommonError>,
)
    requires
        owner_of_post(s, tid, canister, r),
    ensures
        decoded_canister(tid@) == canister@ && s.registry.contains_key(decoded_index(tid@)) ==> (
        r matches Ok(o) && o@ == s.registry[decoded_index(tid@)]),
        !(decoded_canister(tid@) == canister@ && s.registry.contains_key(decoded_index(tid@))) ==> r
            == Err::<AccountIdentifier, CommonError>(CommonError::InvalidToken(tid)),
{
}

/// Metadata of a token of this canister is what was stored for it, for any metadata.
pub proof fn law_metadata_reads_store(
    s: StorageView,
    tid: TokenIdentifier,
    canister: Principal,
    r: Result<Metadata, CommonError>,
)
    requires
        metadata_post(s, tid, canister, r),
    ensures
        decoded_canister(tid@) == canister@ && s.token_metadata.contains_key(decoded_index(tid@))
            ==> (r matches Ok(m) && m@ == s.token_metadata[decoded_index(tid@)]),
        !(decoded_canister(tid@) == canister@ && s.token_metadata.contains_key(decoded_index(tid@)))
            ==> r == Err::<Metadata, CommonError>(CommonError::InvalidToken(tid)),
{
}

/// An account may claim exactly when it has not claimed before; what it holds (by
/// transfer or hand-out) does not matter.
pub proof fn law_claimable_iff_never_claimed(s: StorageView, account: Seq<char>)
    ensures
        s.can_claim(account) <==> !s.claimed.contains_key(account),
{
}

/// Receiving tokens, by transfer or hand-out, and approvals and mints do not change
/// who may claim.
pub proof fn law_holding_does_not_affect_claims(
    s: StorageView,
    token: u32,
    account: Seq<char>,
    spender: Seq<u8>,
    metadata: Option<Seq<u8>>,
    a: Seq<char>,
)
    ensures
        s.transferred(token, account).can_claim(a) == s.can_claim(a),
        s.assigned(token, account).can_claim(a) == s.can_claim(a),
        s.approved(token, spender).can_claim(a) == s.can_claim(a),
        s.minted(metadata).can_claim(a) == s.can_claim(a),
{
}

/// A claim gives the claiming account the next claimable token: it becomes the token's
/// holder, it is recorded as having claimed that token, the next claim moves on by one,
/// and the other accounts' claims stay as they were.
pub proof fn law_claim_outcome(s: StorageView, account: Seq<char>, other: Seq<char>)
    requires
        s.next_claim_id < s.supply_claim,
    ensures
        s.claimed_by(account).registry == s.registry.insert(s.next_claim_id, account),
        s.claimed_by(account).claimed[account] == s.next_claim_id,
        s.claimed_by(account).next_claim_id == s.next_claim_id + 1,
        other != account ==> (s.claimed_by(account).claimed.contains_key(other)
            == s.claimed.contains_key(other)),
        s.claimed_by(account).allowance == s.allowance,
        s.claimed_by(account).token_metadata == s.token_metadata,
{
}

/// A mint gives the next index a token held by "AstroX" whose metadata is
/// non-fungible with exactly the request's blob, and counts it.
pub proof fn law_mint_outcome(s: StorageView, metadata: Option<Seq<u8>>)
    requires
        s.next_token_id < u32::MAX,
        s.supply < u32::MAX,
    ensures
        s.minted(metadata).registry == s.registry.insert(s.next_token_id, "AstroX"@),
        s.minted(metadata).token_metadata == s.token_metadata.insert(
            s.next_token_id,
            MetadataView::NonFungible { metadata },
        ),
        s.minted(metadata).next_token_id == s.next_token_id + 1,
        s.minted(metadata).supply == s.supply + 1,
{
}

/// A batch mint gives token `n + i` (from the next index `n` on) the metadata blob
/// of request `i`, each held by "AstroX", and leaves the tokens before `n` alone.
pub proof fn law_batch_mint_metadata(s: StorageView, reqs: Seq<MintRequest>)
    requires
        s.next_token_id + reqs.len() <= u32::MAX,
        s.supply + reqs.len() <= u32::MAX,
    ensures
        forall|i: int|
            0 <= i < reqs.len() ==> {
                let t = mint_all(s, request_blobs(reqs));
                &&& t.token_metadata.contains_key((s.next_token_id + i) as u32)
                &&& t.token_metadata[(s.next_token_id + i) as u32] == MetadataView::NonFungible {
                    metadata: blob_view(#[trigger] reqs[i].metadata),
                }
                &&& t.registry[(s.next_token_id + i) as u32] == "AstroX"@
            },
        forall|k: u32|
            k < s.next_token_id ==> (#[trigger] mint_all(s, request_blobs(reqs)).token_metadata.contains_key(k)
                == s.token_metadata.contains_key(k)),
        forall|k: u32|
            k < s.next_token_id ==> #[trigger] mint_all(s, request_blobs(reqs)).token_metadata[k]
                == s.token_metadata[k],
        mint_all(s, request_blobs(reqs)).next_token_id == s.next_token_id + reqs.len(),
    decreases reqs.len(),
{
    lemma_mint_all_counters(s, request_blobs(reqs));
    assert forall|k: u32| k < s.next_token_id implies (#[trigger] mint_all(s, request_blobs(reqs)).token_metadata.contains_key(k)
        == s.token_metadata.contains_key(k)) by {
        lemma_mint_all_keeps_earlier(s, request_blobs(reqs), k);
    }
    assert forall|k: u32| k < s.next_token_id implies #[trigger] mint_all(s, request_blobs(reqs)).token_metadata[k]
        == s.token_metadata[k] by {
        lemma_mint_all_keeps_earlier(s, request_blobs(reqs), k);
    }
    if reqs.len() > 0 {
        let init = reqs.drop_last();
        law_batch_mint_metadata(s, init);
        assert(request_blobs(reqs).drop_last() =~= request_blobs(init));
        lemma_mint_all_counters(s, request_blobs(init));
        let p = mint_all(s, request_blobs(init));
        assert(p.next_token_id == s.next_token_id + init.len());
        assert forall|i: int| 0 <= i < reqs.len() implies {
            let t = mint_all(s, request_blobs(reqs));
            &&& t.token_metadata.contains_key((s.next_token_id + i) as u32)
            &&& t.token_metadata[(s.next_token_id + i) as u32] == MetadataView::NonFungible {
                metadata: blob_view(#[trigger] reqs[i].metadata),
            }
            &&& t.registry[(s.next_token_id + i) as u32] == "AstroX"@
        } by {
            if i < init.len() {
                assert(init[i] == reqs[i]);
            }
        }
    }
}

/// Minting leaves the metadata of every token below the first new index as it was.
proof fn lemma_mint_all_keeps_earlier(s: StorageView, blobs: Seq<Option<Seq<u8>>>, k: u32)
    requires
        s.next_token_id + blobs.len() <= u32::MAX,
        s.supply + blobs.len() <= u32::MAX,
        k < s.next_token_id,
    ensures
        mint_all(s, blobs).token_metadata.contains_key(k) == s.token_metadata.contains_key(k),
        mint_all(s, blobs).token_metadata[k] == s.token_metadata[k],
    decreases blobs.len(),
{
    if blobs.len() > 0 {
        lemma_mint_all_keeps_earlier(s, blobs.drop_last(), k);
        lemma_mint_all_counters(s, blobs.drop_last());
    }
}

/// A lookup by ids answers, in the order asked, exactly the asked ids that have
/// metadata, whatever that metadata is.
pub proof fn law_ids_with_metadata_keeps_present_ids(m: Map<u32, MetadataView>, ids: Seq<u32>)
    ensures
        ids_with_metadata(m, ids) == ids.filter(|x: u32| m.contains_key(x)),
        forall|x: u32| ids_with_metadata(m, ids).contains(x) <==> (ids.contains(x) && m.contains_key(x)),
    decreases ids.len(),
{
    reveal(Seq::filter);
    if ids.len() > 0 {
        law_ids_with_metadata_keeps_present_ids(m, ids.drop_last());
        assert forall|x: u32| ids_with_metadata(m, ids).contains(x) <==> (ids.contains(x) && m.contains_key(x)) by {
            lemma_push_contains(ids_with_metadata(m, ids.drop_last()), ids.last(), x);
            lemma_push_contains(ids.drop_last(), ids.last(), x);
            assert(ids.drop_last().push(ids.last()) =~= ids);
        }
    }
}

/// A reserved token still to hand out is one below the reserve held by "AstroX";
/// a token may be handed out while below the reserve and its holder's text is shorter
/// than 18 bytes (any account text is 64).
pub proof fn law_reserved_tokens(s: StorageView, token: u32)
    ensures
        s.is_reserved_unclaimed(token) <==> (token < s.reserve && s.registry.contains_key(token)
            && s.registry[token] == "AstroX"@),
        s.reserve_open(token) <==> (token < s.reserve && s.registry.contains_key(token)
            && encode_utf8(s.registry[token]).len() < 18),
{
}

/// Handing out a reserved token makes the account its holder and changes nothing
/// else: no allowance, claim, metadata or counter.
pub proof fn law_hand_out_outcome(s: StorageView, token: u32, account: Seq<char>)
    ensures
        s.assigned(token, account).registry == s.registry.insert(token, account),
        s.assigned(token, account).allowance == s.allowance,
        s.assigned(token, account).claimed == s.claimed,
        s.assigned(token, account).token_metadata == s.token_metadata,
        s.assigned(token, account).next_claim_id == s.next_claim_id,
        s.assigned(token, account).reserve == s.reserve,
{
}

/// Listing page `page` faults on a token at `k` exactly when a bound of the page it
/// computes goes past `u32::MAX`: the page's start, or, for a token at or after the
/// start, the page's end.
pub proof fn law_page_fault_is_bound_overflow(k: u32, page: u32)
    ensures
        faults_on_page(k, page) <==> (10 * page > u32::MAX || (10 * page <= k && 10 * (page + 1)
            > u32::MAX)),
{
}

/// A token is on page `page` exactly when its index divided by ten is `page`.
pub proof fn law_page_is_index_over_ten(k: u32, page: u32)
    ensures
        on_page(k, page) <==> k / 10 == page,
{
}

/// Approving in bulk touches only allowances, and only of tokens that the caller holds.
pub proof fn law_approve_all_touches_held_allowances(
    s: StorageView,
    reqs: Seq<ApproveRequest>,
    caller: Seq<u8>,
    canister: Seq<u8>,
    t: u32,
)
    ensures
        approve_all_state(s, reqs, caller, canister).registry == s.registry,
        approve_all_state(s, reqs, caller, canister).claimed == s.claimed,
        approve_all_state(s, reqs, caller, canister).token_metadata == s.token_metadata,
        approve_all_state(s, reqs, caller, canister).allowance.contains_key(t) && !(
        s.allowance.contains_key(t) && approve_all_state(s, reqs, caller, canister).allowance[t]
            == s.allowance[t]) ==> s.registry.contains_key(t) && s.registry[t]
            == account_identifier_text(caller),
    decreases reqs.len(),
{
    if reqs.len() > 0 {
        law_approve_all_touches_held_allowances(s, reqs.drop_last(), caller, canister, t);
    }
}

} // verus!
