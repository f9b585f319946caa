use nft_backend::account::from_principal;
use nft_backend::canister::{
    allowance, approve, approve_all, balance, batch_mint_nft, bearer, claim_nft, extensions,
    force_claim_reserve, get_allowances, get_registry, get_tokens, get_tokens_by_ids,
    init_reserve, metadata, mint_nft, pop_status, set_claim_supply, tokens, transfer, Trap,
};
use nft_backend::principal::Principal;
use nft_backend::service::{manager_guard, Service};
use nft_backend::storage::Storage;
use nft_backend::token_id::encode_token_id;
use nft_backend::types::{
    AllowanceRequest, ApproveRequest, BalanceRequest, ClaimRequest, CommonError, Metadata,
    MintRequest, TransferError, TransferRequest, User,
};

fn canister() -> Principal {
    Principal::from_slice(&[0, 0, 0, 0, 0, 0, 0, 1, 1, 1])
}

fn alice() -> Principal {
    Principal::from_slice(&[1, 1, 1])
}

fn bob() -> Principal {
    Principal::from_slice(&[2, 2, 2])
}

fn carol() -> Principal {
    Principal::from_slice(&[3, 3, 3])
}

fn tid(i: u32) -> String {
    encode_token_id(canister(), i)
}

fn mint_req(blob: u8) -> MintRequest {
    MintRequest { to: User::Address("x".to_string()), metadata: Some(vec![blob]) }
}

/// A registry with `n` minted tokens.
fn minted(n: u32) -> Storage {
    let mut s = Storage::new();
    for i in 0..n {
        assert_eq!(mint_nft(&mut s, mint_req(i as u8)), Ok(i));
    }
    s
}

fn transfer_req(token: String, from: User, to: User) -> TransferRequest {
    TransferRequest { from, to, token, memo: vec![], subaccount: None, amount: 1 }
}

fn approve_req(token: String, spender: Principal) -> ApproveRequest {
    ApproveRequest { token, subaccount: None, allowance: 1, spender }
}

/// Tokens 0..5 minted, claims open up to 5, token 0 claimed by alice.
fn with_alice_holding_zero() -> Storage {
    let mut s = minted(5);
    set_claim_supply(&mut s, 5).unwrap();
    assert_eq!(claim_nft(&mut s, alice()), Ok(0));
    s
}

#[test]
fn new_registry_is_empty() {
    let s = Storage::new();
    assert_eq!(s.supply, 0);
    assert_eq!(s.next_token_id, 0);
    assert!(s.registry.is_empty());
    assert_eq!(s.minter.as_slice(), &[4u8][..]);
    assert!(get_registry(&s).is_empty());
}

#[test]
fn minting_counts_up_and_holds_placeholder() {
    let s = minted(3);
    assert_eq!(s.supply, 3);
    assert_eq!(s.next_token_id, 3);
    assert_eq!(s.registry.get(&2), Some(&"AstroX".to_string()));
    assert_eq!(s.token_metadata.get(&1), Some(&Metadata::NonFungible { metadata: Some(vec![1]) }));
}

#[test]
fn mint_traps_at_the_end_of_the_counter() {
    let mut s = Storage::new();
    s.next_token_id = u32::MAX;
    assert_eq!(mint_nft(&mut s, mint_req(0)), Err(Trap::Overflow));
    assert!(s.registry.is_empty());
}

#[test]
fn batch_mint_gives_consecutive_ids() {
    let mut s = minted(2);
    let ids = batch_mint_nft(&mut s, vec![mint_req(7), mint_req(8), mint_req(9)]).unwrap();
    assert_eq!(ids, vec![2, 3, 4]);
    assert_eq!(s.supply, 5);
    assert_eq!(s.token_metadata.get(&4), Some(&Metadata::NonFungible { metadata: Some(vec![9]) }));
}

#[test]
fn batch_mint_that_overflows_mints_nothing() {
    let mut s = minted(1);
    s.supply = u32::MAX - 1;
    let r = batch_mint_nft(&mut s, vec![mint_req(1), mint_req(2)]);
    assert_eq!(r, Err(Trap::Overflow));
    assert_eq!(s.next_token_id, 1);
    assert_eq!(s.registry.len(), 1);
}

#[test]
fn managers_are_counted_and_guarded() {
    let mut s = Storage::new();
    s.init_manager(alice());
    assert_eq!(s.add_manager(bob()), 2);
    assert_eq!(s.add_manager(bob()), 2);
    assert!(s.is_manager(alice()));
    assert_eq!(manager_guard(&s, bob()), Ok(()));
    assert_eq!(manager_guard(&s, carol()), Err("Not manager".to_string()));
}

#[test]
fn init_reserve_sets_reserve_and_first_claim() {
    let mut s = minted(5);
    assert_eq!(init_reserve(&mut s, 3), Ok(()));
    assert_eq!(s.reserve, 3);
    assert_eq!(s.next_claim_id, 3);
    let mut reserved = s.reserves();
    reserved.sort();
    assert_eq!(reserved, vec![0, 1, 2]);
}

#[test]
fn init_reserve_refused_after_claims_or_beyond_supply() {
    let mut s = minted(5);
    assert_eq!(init_reserve(&mut s, 5), Err(Trap::InitReserveFail { next_claim_id: 0 }));
    s.next_claim_id = 2;
    assert_eq!(init_reserve(&mut s, 1), Err(Trap::InitReserveFail { next_claim_id: 2 }));
    assert_eq!(s.reserve, 0);
}

#[test]
fn claim_supply_rules() {
    let mut s = minted(5);
    init_reserve(&mut s, 2).unwrap();
    assert_eq!(set_claim_supply(&mut s, 2), Err(Trap::ClaimBelowReserve { claim: 2, reserve: 2 }));
    assert_eq!(set_claim_supply(&mut s, 6), Err(Trap::ClaimExceedSupply { claim: 6, supply: 5 }));
    assert_eq!(set_claim_supply(&mut s, 4), Ok(()));
    assert_eq!(s.supply_claim, 4);
    assert_eq!(set_claim_supply(&mut s, 0), Ok(()));
    assert_eq!(s.supply_claim, 5);
}

#[test]
fn each_account_claims_once_until_supply_runs_out() {
    let mut s = minted(3);
    init_reserve(&mut s, 1).unwrap();
    set_claim_supply(&mut s, 3).unwrap();
    assert!(Service::is_claimable(&s, alice()));
    assert_eq!(claim_nft(&mut s, alice()), Ok(1));
    assert!(!Service::is_claimable(&s, alice()));
    assert_eq!(claim_nft(&mut s, alice()), Err(Trap::AlreadyClaimed));
    assert_eq!(claim_nft(&mut s, bob()), Ok(2));
    assert_eq!(claim_nft(&mut s, carol()), Err(Trap::ExceedClaimSupply));
    assert_eq!(s.registry.get(&1), Some(&from_principal(alice())));
    let info = pop_status(&s);
    assert_eq!((info.reserve, info.claimed, info.available, info.supply), (1, 3, 3, 3));
}

#[test]
fn reserved_token_is_handed_out_once() {
    let mut s = minted(3);
    init_reserve(&mut s, 2).unwrap();
    let req = |index| ClaimRequest { to: User::Principal(bob()), index };
    assert_eq!(force_claim_reserve(&mut s, req(2)), Err(Trap::ExceedClaimReserve));
    assert_eq!(force_claim_reserve(&mut s, req(1)), Ok(1));
    assert_eq!(s.registry.get(&1), Some(&from_principal(bob())));
    assert_eq!(s.reserves(), vec![0]);
    assert_eq!(
        force_claim_reserve(&mut s, req(1)),
        Err(Trap::AccountExists(from_principal(bob())))
    );
    s.reserve = 9;
    assert_eq!(force_claim_reserve(&mut s, req(7)), Err(Trap::InvalidTokenId(7)));
}

#[test]
fn holder_transfers_and_bearer_follows() {
    let mut s = with_alice_holding_zero();
    let from = User::Principal(alice());
    let to = User::Principal(bob());
    let r = transfer(&mut s, transfer_req(tid(0), from, to.clone()), alice(), canister());
    assert_eq!(r, Ok(Ok(1)));
    assert_eq!(bearer(&s, tid(0), canister()), Ok(Ok(from_principal(bob()))));
    let bal = |u: Principal| BalanceRequest { token: tid(0), user: User::Principal(u) };
    assert_eq!(balance(&s, bal(bob()), canister()), Ok(Ok(1)));
    assert_eq!(balance(&s, bal(alice()), canister()), Ok(Ok(0)));
}

#[test]
fn transfer_refusals_leave_registry_alone() {
    let mut s = with_alice_holding_zero();
    let before = get_registry(&s);
    let other = Principal::from_slice(&[0, 0, 0, 0, 0, 0, 0, 9, 1, 1]);
    let foreign = encode_token_id(other, 0);
    let r = transfer(
        &mut s,
        transfer_req(foreign.clone(), User::Principal(alice()), User::Principal(bob())),
        alice(),
        canister(),
    );
    assert_eq!(r, Ok(Err(TransferError::InvalidToken(foreign))));
    let r = transfer(
        &mut s,
        transfer_req(tid(4), User::Principal(bob()), User::Principal(carol())),
        bob(),
        canister(),
    );
    assert_eq!(r, Ok(Err(TransferError::Unauthorized(from_principal(bob())))));
    let r = transfer(
        &mut s,
        transfer_req(tid(0), User::Principal(alice()), User::Principal(carol())),
        bob(),
        canister(),
    );
    assert_eq!(r, Ok(Err(TransferError::Unauthorized(from_principal(bob())))));
    let r = transfer(
        &mut s,
        transfer_req(tid(9), User::Principal(alice()), User::Principal(carol())),
        alice(),
        canister(),
    );
    assert_eq!(r, Ok(Err(TransferError::InvalidToken(tid(9)))));
    let r = transfer(
        &mut s,
        transfer_req("zzz".to_string(), User::Principal(alice()), User::Principal(carol())),
        alice(),
        canister(),
    );
    assert_eq!(r, Err(Trap::UndecodableToken));
    assert_eq!(get_registry(&s), before);
}

#[test]
fn approved_spender_transfers_once() {
    let mut s = with_alice_holding_zero();
    assert_eq!(approve(&mut s, approve_req(tid(0), bob()), bob(), canister()), Ok(false));
    assert_eq!(approve(&mut s, approve_req(tid(0), bob()), alice(), canister()), Ok(true));
    let ask = |spender: Principal| AllowanceRequest {
        token: tid(0),
        owner: User::Principal(alice()),
        spender,
    };
    assert_eq!(allowance(&s, ask(bob()), canister()), Ok(Ok(1)));
    assert_eq!(allowance(&s, ask(carol()), canister()), Ok(Ok(0)));
    let allowances = get_allowances(&s);
    assert_eq!(allowances, vec![(0, bob())]);
    let r = transfer(
        &mut s,
        transfer_req(tid(0), User::Principal(alice()), User::Principal(carol())),
        bob(),
        canister(),
    );
    assert_eq!(r, Ok(Ok(1)));
    assert!(get_allowances(&s).is_empty());
    let wrong_owner = AllowanceRequest { token: tid(0), owner: User::Principal(alice()), spender: bob() };
    assert_eq!(
        allowance(&s, wrong_owner, canister()),
        Ok(Err(CommonError::Other("Invalid owner".to_string())))
    );
    let missing = AllowanceRequest { token: tid(9), owner: User::Principal(alice()), spender: bob() };
    assert_eq!(allowance(&s, missing, canister()), Ok(Err(CommonError::InvalidToken(tid(9)))));
}

#[test]
fn approve_all_with_no_approval_answers_nothing() {
    let mut s = with_alice_holding_zero();
    let r = approve_all(&mut s, vec![approve_req(tid(0), carol()), approve_req(tid(1), carol())], bob(), canister());
    assert_eq!(r, Ok(vec![]));
    assert!(get_allowances(&s).is_empty());
}

#[test]
fn approve_all_traps_on_approved_non_decimal_token() {
    let mut s = with_alice_holding_zero();
    let r = approve_all(&mut s, vec![approve_req(tid(0), carol())], alice(), canister());
    assert_eq!(r, Err(Trap::NotANumber(tid(0))));
    assert!(get_allowances(&s).is_empty());
    let r = approve_all(&mut s, vec![approve_req("bad".to_string(), carol())], alice(), canister());
    assert_eq!(r, Err(Trap::UndecodableToken));
}

#[test]
fn metadata_and_tokens_queries() {
    let s = with_alice_holding_zero();
    assert_eq!(
        metadata(&s, tid(3), canister()),
        Ok(Ok(Metadata::NonFungible { metadata: Some(vec![3]) }))
    );
    assert_eq!(metadata(&s, tid(8), canister()), Ok(Err(CommonError::InvalidToken(tid(8)))));
    assert_eq!(tokens(&s, from_principal(alice())), Ok(vec![0]));
    let mut placeholders = tokens(&s, "AstroX".to_string()).unwrap();
    placeholders.sort();
    assert_eq!(placeholders, vec![1, 2, 3, 4]);
    let by_ids = get_tokens_by_ids(&s, vec![4, 9, 1]);
    assert_eq!(by_ids.iter().map(|p| p.0).collect::<Vec<_>>(), vec![4, 1]);
    assert_eq!(by_ids[0].1, Metadata::NonFungible { metadata: Some(vec![4]) });
    assert_eq!(
        extensions(),
        vec!["@ext/common".to_string(), "@ext/allowance".to_string(), "@ext/nonfungible".to_string()]
    );
}

#[test]
fn tokens_are_listed_ten_per_page() {
    let mut s = minted(25);
    let mut page = get_tokens(&s, 2).unwrap().into_iter().map(|p| p.0).collect::<Vec<_>>();
    page.sort();
    assert_eq!(page, vec![20, 21, 22, 23, 24]);
    assert_eq!(get_tokens(&s, 1).unwrap().len(), 10);
    assert_eq!(get_tokens(&s, 429496730), Err(Trap::Overflow));
    assert!(get_tokens(&s, 429496729).unwrap().is_empty());
    s = Storage::new();
    assert_eq!(get_tokens(&s, u32::MAX), Ok(vec![]));
}

#[test]
fn upgrade_keeps_all_but_the_reserve() {
    let mut s = with_alice_holding_zero();
    s.reserve = 1;
    approve(&mut s, approve_req(tid(0), bob()), alice(), canister()).unwrap();
    let registry = s.registry.clone();
    let restored = Storage::from_stable(s.into_stable());
    assert_eq!(restored.reserve, 0);
    assert_eq!(restored.registry, registry);
    assert_eq!(restored.next_claim_id, 1);
    assert_eq!(restored.supply, 5);
    assert!(!Service::is_claimable(&restored, alice()));
    assert_eq!(get_allowances(&restored), vec![(0, bob())]);
}

#[test]
fn service_queries_answer_owner_and_metadata() {
    let s = with_alice_holding_zero();
    assert_eq!(Service::owner_of(&s, tid(0), canister()), Ok(from_principal(alice())));
    assert_eq!(Service::owner_of(&s, tid(1), canister()), Ok("AstroX".to_string()));
    assert_eq!(Service::owner_of(&s, tid(7), canister()), Err(CommonError::InvalidToken(tid(7))));
    assert_eq!(
        Service::metadata(&s, tid(2), canister()),
        Ok(Metadata::NonFungible { metadata: Some(vec![2]) })
    );
}

#[test]
fn bookkeeping_stays_consistent_through_operations() {
    let mut s = minted(6);
    init_reserve(&mut s, 2).unwrap();
    set_claim_supply(&mut s, 4).unwrap();
    claim_nft(&mut s, alice()).unwrap();
    force_claim_reserve(&mut s, ClaimRequest { to: User::Principal(bob()), index: 1 }).unwrap();
    batch_mint_nft(&mut s, vec![mint_req(1)]).unwrap();
    let r = transfer(
        &mut s,
        transfer_req(tid(2), User::Principal(alice()), User::Principal(carol())),
        alice(),
        canister(),
    );
    assert_eq!(r, Ok(Ok(1)));
    assert_eq!(s.supply, s.next_token_id);
    assert_eq!(s.registry.len() as u32, s.next_token_id);
    assert_eq!(s.token_metadata.len() as u32, s.next_token_id);
    assert!(s.supply_claim <= s.supply);
}

#[test]
fn minter_and_counters_are_read_back() {
    let mut s = minted(3);
    nft_backend::canister::set_minter(&mut s, carol());
    assert_eq!(nft_backend::canister::get_minter(&s), carol());
    assert_eq!(nft_backend::canister::supply(&s, "any".to_string()), Ok(3));
    set_claim_supply(&mut s, 0).unwrap();
    assert_eq!(nft_backend::canister::claim_supply(&s), Ok(3));
    assert_eq!(nft_backend::canister::next_claim_id(&s), Ok(0));
    assert_eq!(nft_backend::canister::test(), User::Address("0".to_string()));
}

#[test]
fn an_account_that_claimed_stays_unable_to_claim() {
    let mut s = with_alice_holding_zero();
    let r = transfer(
        &mut s,
        transfer_req(tid(0), User::Principal(alice()), User::Principal(bob())),
        alice(),
        canister(),
    );
    assert_eq!(r, Ok(Ok(1)));
    mint_nft(&mut s, mint_req(9)).unwrap();
    let restored = Storage::from_stable(s.into_stable());
    assert!(!Service::is_claimable(&restored, alice()));
    let mut restored = restored;
    assert_eq!(claim_nft(&mut restored, alice()), Err(Trap::AlreadyClaimed));
}

